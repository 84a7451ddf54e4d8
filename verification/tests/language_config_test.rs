use lsproxy::api_types::SupportedLanguages;
use lsproxy::manager::Manager;
use lsproxy::orchestrator::{image_name_for_language, language_slug, language_specific_env};
use lsproxy::scan::{default_exclude_patterns, detected_languages, language_file_patterns};

#[test]
fn test_image_name_for_language() {
    assert_eq!(
        image_name_for_language(SupportedLanguages::Golang),
        "lsproxy-golang:latest"
    );
    assert_eq!(
        image_name_for_language(SupportedLanguages::Python),
        "lsproxy-python:latest"
    );
    assert_eq!(
        image_name_for_language(SupportedLanguages::RubySorbet),
        "lsproxy-ruby-sorbet:latest"
    );
    assert_eq!(
        image_name_for_language(SupportedLanguages::TypeScriptJavaScript),
        "lsproxy-typescript:latest"
    );
}

#[test]
fn test_language_slug() {
    assert_eq!(language_slug(SupportedLanguages::RubySorbet), "ruby-sorbet");
    assert_eq!(language_slug(SupportedLanguages::Golang), "golang");
    assert_eq!(language_slug(SupportedLanguages::CSharp), "csharp");
}

#[test]
fn test_language_specific_env() {
    let env = language_specific_env(SupportedLanguages::Golang);
    assert_eq!(env.len(), 1);
    assert!(env[0].contains("gopls"));

    let env = language_specific_env(SupportedLanguages::Ruby);
    assert!(env[0].contains("ruby-lsp"));
}

#[test]
fn test_parse_language_valid() {
    assert_eq!(
        Manager::parse_language("python"),
        Some(SupportedLanguages::Python)
    );
    assert_eq!(
        Manager::parse_language("PYTHON"),
        Some(SupportedLanguages::Python)
    );
    assert_eq!(
        Manager::parse_language(" python "),
        Some(SupportedLanguages::Python)
    );
}

#[test]
fn test_parse_language_typescript_aliases() {
    assert_eq!(
        Manager::parse_language("typescript"),
        Some(SupportedLanguages::TypeScriptJavaScript)
    );
    assert_eq!(
        Manager::parse_language("javascript"),
        Some(SupportedLanguages::TypeScriptJavaScript)
    );
    assert_eq!(
        Manager::parse_language("typescript_javascript"),
        Some(SupportedLanguages::TypeScriptJavaScript)
    );
}

#[test]
fn test_parse_language_golang_aliases() {
    assert_eq!(
        Manager::parse_language("golang"),
        Some(SupportedLanguages::Golang)
    );
    assert_eq!(
        Manager::parse_language("go"),
        Some(SupportedLanguages::Golang)
    );
}

#[test]
fn test_parse_language_cpp_aliases() {
    assert_eq!(Manager::parse_language("cpp"), Some(SupportedLanguages::CPP));
    assert_eq!(Manager::parse_language("c++"), Some(SupportedLanguages::CPP));
}

#[test]
fn test_parse_language_csharp_aliases() {
    assert_eq!(
        Manager::parse_language("csharp"),
        Some(SupportedLanguages::CSharp)
    );
    assert_eq!(
        Manager::parse_language("c#"),
        Some(SupportedLanguages::CSharp)
    );
}

#[test]
fn test_parse_language_ruby_sorbet_aliases() {
    assert_eq!(
        Manager::parse_language("ruby_sorbet"),
        Some(SupportedLanguages::RubySorbet)
    );
    assert_eq!(
        Manager::parse_language("sorbet"),
        Some(SupportedLanguages::RubySorbet)
    );
}

#[test]
fn test_parse_language_invalid() {
    assert_eq!(Manager::parse_language("invalid"), None);
    assert_eq!(Manager::parse_language(""), None);
    assert_eq!(Manager::parse_language("c"), None);
}

#[test]
fn test_get_enabled_languages_single() {
    let langs = Manager::get_enabled_languages("python");
    assert_eq!(langs.len(), 1);
    assert!(langs.contains(&SupportedLanguages::Python));
}

#[test]
fn test_get_enabled_languages_multiple() {
    let langs = Manager::get_enabled_languages("python,rust,typescript");
    assert_eq!(langs.len(), 3);
    assert!(langs.contains(&SupportedLanguages::Python));
    assert!(langs.contains(&SupportedLanguages::Rust));
    assert!(langs.contains(&SupportedLanguages::TypeScriptJavaScript));
}

#[test]
fn test_get_enabled_languages_with_spaces() {
    let langs = Manager::get_enabled_languages(" python , rust , go ");
    assert_eq!(langs.len(), 3);
    assert!(langs.contains(&SupportedLanguages::Python));
    assert!(langs.contains(&SupportedLanguages::Rust));
    assert!(langs.contains(&SupportedLanguages::Golang));
}

#[test]
fn test_get_enabled_languages_with_invalid() {
    let langs = Manager::get_enabled_languages("python,invalid,rust");
    assert_eq!(langs.len(), 2);
    assert!(langs.contains(&SupportedLanguages::Python));
    assert!(langs.contains(&SupportedLanguages::Rust));
}

#[test]
fn test_get_enabled_languages_empty_string() {
    let langs = Manager::get_enabled_languages("");
    assert_eq!(langs.len(), 0);
}

#[test]
fn test_get_enabled_languages_all_invalid() {
    let langs = Manager::get_enabled_languages("invalid1,invalid2");
    assert_eq!(langs.len(), 0);
}

#[test]
fn test_get_enabled_languages_duplicates_collapse() {
    let langs = Manager::get_enabled_languages("python,python,py,python");
    assert_eq!(langs.len(), 1);
    assert!(langs.contains(&SupportedLanguages::Python));
}

#[test]
fn file_patterns_are_pinned() {
    assert_eq!(
        language_file_patterns(SupportedLanguages::Python),
        vec!["**/*.py".to_string()]
    );
    assert_eq!(
        language_file_patterns(SupportedLanguages::TypeScriptJavaScript),
        vec![
            "**/*.ts".to_string(),
            "**/*.tsx".to_string(),
            "**/*.js".to_string(),
            "**/*.jsx".to_string(),
        ]
    );
    assert_eq!(
        language_file_patterns(SupportedLanguages::Golang),
        vec!["**/*.go".to_string()]
    );
    assert_eq!(
        default_exclude_patterns(),
        vec![
            "**/node_modules/**".to_string(),
            "**/__pycache__/**".to_string(),
            "**/.git/**".to_string(),
            "**/dist/**".to_string(),
            "**/target/**".to_string(),
            "**/.venv/**".to_string(),
        ]
    );
}

#[test]
fn detection_decision_follows_hits_and_restriction() {
    // Hits aligned with the canonical order: Python and Golang hit.
    let hits = vec![
        true, false, false, false, false, false, true, false, false, false,
    ];
    let langs = detected_languages(&hits, &None);
    assert_eq!(
        langs,
        vec![SupportedLanguages::Python, SupportedLanguages::Golang]
    );
    // A restriction admits only Golang; the Python hit is dropped.
    let only_go = Some(vec![SupportedLanguages::Golang]);
    let langs = detected_languages(&hits, &only_go);
    assert_eq!(langs, vec![SupportedLanguages::Golang]);
    // No hits: nothing is reported, restricted or not.
    let none = vec![false; 10];
    assert_eq!(detected_languages(&none, &None), Vec::new());
}
