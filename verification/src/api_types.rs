//! Core data types of the gateway: positions, ranges, locations, the
//! language enumeration, and the manager's error type.
use vstd::prelude::*;

verus! {

/// A zero-based line/character pair; characters are counted in UTF-16
/// code units by protocol convention.
#[derive(Clone, Copy, Debug, PartialEq, Eq, Structural)]
pub struct Position {
    pub line: u32,
    pub character: u32,
}

/// A half-open `[start, end)` pair of positions.
#[derive(Clone, Copy, Debug, PartialEq, Eq, Structural)]
pub struct Range {
    pub start: Position,
    pub end: Position,
}

/// A workspace-relative file path plus a range inside that file.
#[derive(Clone, Debug)]
pub struct Location {
    pub path: String,
    pub range: Range,
}

/// A workspace-relative file path plus a position inside that file.
#[derive(Clone, Debug)]
pub struct FilePosition {
    pub path: String,
    pub position: Position,
}

/// The fixed enumeration of recognized languages.
#[derive(Clone, Copy, Debug, PartialEq, Eq, Hash, Structural)]
pub enum SupportedLanguages {
    Python,
    TypeScriptJavaScript,
    Rust,
    CPP,
    CSharp,
    Java,
    Golang,
    PHP,
    Ruby,
    RubySorbet,
}

impl SupportedLanguages {
    /// A short lowercase name for the language.
    pub open spec fn spec_name(self) -> Seq<char> {
        match self {
            SupportedLanguages::Python => "python"@,
            SupportedLanguages::TypeScriptJavaScript => "typescript_javascript"@,
            SupportedLanguages::Rust => "rust"@,
            SupportedLanguages::CPP => "cpp"@,
            SupportedLanguages::CSharp => "csharp"@,
            SupportedLanguages::Java => "java"@,
            SupportedLanguages::Golang => "golang"@,
            SupportedLanguages::PHP => "php"@,
            SupportedLanguages::Ruby => "ruby"@,
            SupportedLanguages::RubySorbet => "ruby_sorbet"@,
        }
    }

    /// A short lowercase name for the language.
    pub fn name(self) -> (r: String)
        ensures
            r@ == self.spec_name(),
    {
        match self {
            SupportedLanguages::Python => "python".to_owned(),
            SupportedLanguages::TypeScriptJavaScript => "typescript_javascript".to_owned(),
            SupportedLanguages::Rust => "rust".to_owned(),
            SupportedLanguages::CPP => "cpp".to_owned(),
            SupportedLanguages::CSharp => "csharp".to_owned(),
            SupportedLanguages::Java => "java".to_owned(),
            SupportedLanguages::Golang => "golang".to_owned(),
            SupportedLanguages::PHP => "php".to_owned(),
            SupportedLanguages::Ruby => "ruby".to_owned(),
            SupportedLanguages::RubySorbet => "ruby_sorbet".to_owned(),
        }
    }
}

/// The ten language tags in the fixed order used for workspace detection.
pub open spec fn spec_all_languages() -> Seq<SupportedLanguages> {
    seq![
        SupportedLanguages::Python,
        SupportedLanguages::TypeScriptJavaScript,
        SupportedLanguages::Rust,
        SupportedLanguages::CPP,
        SupportedLanguages::CSharp,
        SupportedLanguages::Java,
        SupportedLanguages::Golang,
        SupportedLanguages::PHP,
        SupportedLanguages::Ruby,
        SupportedLanguages::RubySorbet,
    ]
}

/// The ten language tags in the fixed order used for workspace detection.
pub fn all_languages() -> (r: Vec<SupportedLanguages>)
    ensures
        r@ == spec_all_languages(),
{
    let mut r: Vec<SupportedLanguages> = Vec::new();
    r.push(SupportedLanguages::Python);
    r.push(SupportedLanguages::TypeScriptJavaScript);
    r.push(SupportedLanguages::Rust);
    r.push(SupportedLanguages::CPP);
    r.push(SupportedLanguages::CSharp);
    r.push(SupportedLanguages::Java);
    r.push(SupportedLanguages::Golang);
    r.push(SupportedLanguages::PHP);
    r.push(SupportedLanguages::Ruby);
    r.push(SupportedLanguages::RubySorbet);
    proof {
        assert(r@ =~= spec_all_languages());
    }
    r
}

/// Errors surfaced by the manager layer.
#[derive(Clone, Debug)]
pub enum LspManagerError {
    FileNotFound(String),
    LspClientNotFound(SupportedLanguages),
    InternalError(String),
    UnsupportedFileType(String),
    NotImplemented(String),
    NoLspClientAvailable,
}

impl LspManagerError {
    /// A single-line diagnostic for the error.
    pub fn message(&self) -> (r: String)
        ensures
            r@ == match self {
                LspManagerError::FileNotFound(p) => "File '"@ + p@ + "' not found in workspace"@,
                LspManagerError::LspClientNotFound(l) => "LSP client not found for "@
                    + l.spec_name(),
                LspManagerError::InternalError(m) => "Internal error: "@ + m@,
                LspManagerError::UnsupportedFileType(p) => "Unsupported file type: "@ + p@,
                LspManagerError::NotImplemented(m) => "Not implemented: "@ + m@,
                LspManagerError::NoLspClientAvailable => "No LSP client available for language"@,
            },
    {
        match self {
            LspManagerError::FileNotFound(p) => {
                let mut r = "File '".to_owned();
                r.append(p.as_str());
                r.append("' not found in workspace");
                r
            },
            LspManagerError::LspClientNotFound(l) => {
                let mut r = "LSP client not found for ".to_owned();
                let n = l.name();
                r.append(n.as_str());
                r
            },
            LspManagerError::InternalError(m) => {
                let mut r = "Internal error: ".to_owned();
                r.append(m.as_str());
                r
            },
            LspManagerError::UnsupportedFileType(p) => {
                let mut r = "Unsupported file type: ".to_owned();
                r.append(p.as_str());
                r
            },
            LspManagerError::NotImplemented(m) => {
                let mut r = "Not implemented: ".to_owned();
                r.append(m.as_str());
                r
            },
            LspManagerError::NoLspClientAvailable => "No LSP client available for language".to_owned(),
        }
    }
}

} // verus!
