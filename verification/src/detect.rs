//! Language detection: map a file path's extension to a language tag, with
//! a content-inspection rule routing Ruby files carrying a strict typing
//! annotation to the stricter variant.
use vstd::prelude::*;

use crate::api_types::{LspManagerError, SupportedLanguages};
use crate::text::{
    has_prefix, rfind_char, rfind_char_str, spec_trim, str_eq, str_has_prefix, trim_front,
    trim_str,
};

verus! {

/// The final path component: everything after the last `/`.
pub open spec fn last_component(s: Seq<char>) -> Seq<char> {
    let i = rfind_char(s, '/');
    if i == -1 {
        s
    } else {
        s.subrange(i + 1, s.len() as int)
    }
}

/// The extension of a path: the part of the final component after its last
/// dot. A component with no dot, or whose only dot is its first character
/// (a hidden file), has no extension.
pub open spec fn spec_extension(s: Seq<char>) -> Option<Seq<char>> {
    let name = last_component(s);
    let i = rfind_char(name, '.');
    if i <= 0 {
        None
    } else {
        Some(name.subrange(i + 1, name.len() as int))
    }
}

/// Extract the extension of a path.
pub fn extension_of(path: &str) -> (r: Option<String>)
    ensures
        match r {
            Some(e) => spec_extension(path@) == Some(e@),
            None => spec_extension(path@) is None,
        },
{
    let len = path.unicode_len();
    let name: &str = match rfind_char_str(path, '/') {
        Some(i) => {
            let n = path.substring_char(i + 1, len);
            proof {
                assert(n@ =~= last_component(path@));
            }
            n
        },
        None => path,
    };
    let nlen = name.unicode_len();
    match rfind_char_str(name, '.') {
        Some(i) if i > 0 => {
            let e = name.substring_char(i + 1, nlen);
            Some(e.to_owned())
        },
        _ => None,
    }
}

/// The language tag recognized for an extension, before the Ruby content
/// inspection is applied.
pub open spec fn spec_ext_lang(e: Seq<char>) -> Option<SupportedLanguages> {
    if e == "py"@ {
        Some(SupportedLanguages::Python)
    } else if e == "ts"@ || e == "tsx"@ || e == "js"@ || e == "jsx"@ {
        Some(SupportedLanguages::TypeScriptJavaScript)
    } else if e == "rs"@ {
        Some(SupportedLanguages::Rust)
    } else if e == "c"@ || e == "h"@ || e == "cpp"@ || e == "cc"@ || e == "cxx"@ || e == "hpp"@
        || e == "hxx"@ {
        Some(SupportedLanguages::CPP)
    } else if e == "cs"@ {
        Some(SupportedLanguages::CSharp)
    } else if e == "java"@ {
        Some(SupportedLanguages::Java)
    } else if e == "go"@ {
        Some(SupportedLanguages::Golang)
    } else if e == "php"@ {
        Some(SupportedLanguages::PHP)
    } else if e == "rb"@ {
        Some(SupportedLanguages::Ruby)
    } else {
        None
    }
}

fn ext_lang(e: &str) -> (r: Option<SupportedLanguages>)
    ensures
        r == spec_ext_lang(e@),
{
    if str_eq(e, "py") {
        Some(SupportedLanguages::Python)
    } else if str_eq(e, "ts") || str_eq(e, "tsx") || str_eq(e, "js") || str_eq(e, "jsx") {
        Some(SupportedLanguages::TypeScriptJavaScript)
    } else if str_eq(e, "rs") {
        Some(SupportedLanguages::Rust)
    } else if str_eq(e, "c") || str_eq(e, "h") || str_eq(e, "cpp") || str_eq(e, "cc") || str_eq(
        e,
        "cxx",
    ) || str_eq(e, "hpp") || str_eq(e, "hxx") {
        Some(SupportedLanguages::CPP)
    } else if str_eq(e, "cs") {
        Some(SupportedLanguages::CSharp)
    } else if str_eq(e, "java") {
        Some(SupportedLanguages::Java)
    } else if str_eq(e, "go") {
        Some(SupportedLanguages::Golang)
    } else if str_eq(e, "php") {
        Some(SupportedLanguages::PHP)
    } else if str_eq(e, "rb") {
        Some(SupportedLanguages::Ruby)
    } else {
        None
    }
}

/// The typing level named by one line, if the line is a comment of the form
/// `# typed: <level>`.
pub open spec fn line_typed_level(line: Seq<char>) -> Option<Seq<char>> {
    let t = spec_trim(line);
    if t.len() > 0 && t[0] == '#' {
        let c = spec_trim(t.drop_first());
        if has_prefix(c, "typed:"@) {
            Some(spec_trim(c.subrange(6, c.len() as int)))
        } else {
            None
        }
    } else {
        None
    }
}

/// Whether the first `budget` lines carry a typing annotation at level
/// `true`, `strict` or `strong`. The first line naming a level decides.
pub open spec fn spec_sorbet_lines(lines: Seq<Seq<char>>, budget: nat) -> bool
    decreases budget,
{
    if budget == 0 || lines.len() == 0 {
        false
    } else {
        match line_typed_level(lines[0]) {
            Some(l) => l == "true"@ || l == "strict"@ || l == "strong"@,
            None => spec_sorbet_lines(lines.drop_first(), (budget - 1) as nat),
        }
    }
}

/// Whether the opening lines of a file carry a strict typing annotation;
/// only the first ten lines are inspected.
pub open spec fn spec_sorbet(lines: Seq<Seq<char>>) -> bool {
    spec_sorbet_lines(lines, 10)
}

fn line_level(line: &str) -> (r: Option<String>)
    ensures
        match r {
            Some(l) => line_typed_level(line@) == Some(l@),
            None => line_typed_level(line@) is None,
        },
{
    let t = trim_str(line);
    let tlen = t.as_str().unicode_len();
    if tlen > 0 && t.as_str().get_char(0) == '#' {
        let after = t.as_str().substring_char(1, tlen);
        proof {
            assert(after@ =~= spec_trim(line@).drop_first());
        }
        let c = trim_str(after);
        if str_has_prefix(c.as_str(), "typed:") {
            proof {
                reveal_strlit("typed:");
            }
            let clen = c.as_str().unicode_len();
            let lvl = c.as_str().substring_char(6, clen);
            Some(trim_str(lvl))
        } else {
            None
        }
    } else {
        None
    }
}

/// Scan the opening lines of a file for a `# typed:` annotation at level
/// `true`, `strict` or `strong`; only the first ten lines are inspected.
pub fn has_sorbet_type_annotation(head_lines: &Vec<String>) -> (r: bool)
    ensures
        r == spec_sorbet(head_lines@.map_values(|l: String| l@)),
{
    let r = sorbet_from(head_lines, 0, 10);
    proof {
        let mapped = head_lines@.map_values(|l: String| l@);
        assert(mapped.subrange(0, head_lines@.len() as int) =~= mapped);
    }
    r
}

fn sorbet_from(lines: &Vec<String>, from: usize, budget: u32) -> (r: bool)
    requires
        from <= lines@.len(),
    ensures
        r == spec_sorbet_lines(
            lines@.map_values(|l: String| l@).subrange(from as int, lines@.len() as int),
            budget as nat,
        ),
    decreases lines@.len() - from,
{
    let ghost mapped = lines@.map_values(|l: String| l@);
    if budget == 0 || from == lines.len() {
        proof {
            if from == lines@.len() {
                assert(mapped.subrange(from as int, lines@.len() as int) =~= Seq::<
                    Seq<char>,
                >::empty());
            }
        }
        false
    } else {
        let ghost sub = mapped.subrange(from as int, lines@.len() as int);
        proof {
            assert(sub[0] == mapped[from as int]);
            assert(sub.drop_first() =~= mapped.subrange(from + 1, lines@.len() as int));
        }
        match line_level(lines[from].as_str()) {
            Some(l) => {
                str_eq(l.as_str(), "true") || str_eq(l.as_str(), "strict") || str_eq(
                    l.as_str(),
                    "strong",
                )
            },
            None => sorbet_from(lines, from + 1, budget - 1),
        }
    }
}

/// The detected language of a path, given the opening lines of the file
/// for the Ruby content inspection.
pub open spec fn spec_detect(path: Seq<char>, lines: Seq<Seq<char>>) -> Option<
    SupportedLanguages,
> {
    match spec_extension(path) {
        None => None,
        Some(e) => match spec_ext_lang(e) {
            None => None,
            Some(SupportedLanguages::Ruby) => if spec_sorbet(lines) {
                Some(SupportedLanguages::RubySorbet)
            } else {
                Some(SupportedLanguages::Ruby)
            },
            Some(l) => Some(l),
        },
    }
}

/// Detect the language of a file from its path's extension. `head_lines`
/// holds the opening lines of the file, consulted only for Ruby files;
/// the caller may pass an empty vector when the file is unreadable.
/// Returns `UnsupportedFileType` exactly when no extension is recognized.
pub fn detect_language(file_path: &str, head_lines: &Vec<String>) -> (r: Result<
    SupportedLanguages,
    LspManagerError,
>)
    ensures
        match r {
            Ok(l) => spec_detect(file_path@, head_lines@.map_values(|l: String| l@)) == Some(l),
            Err(e) => spec_detect(file_path@, head_lines@.map_values(|l: String| l@)) is None
                && (e matches LspManagerError::UnsupportedFileType(p) && p@ == file_path@),
        },
{
    match extension_of(file_path) {
        None => Err(LspManagerError::UnsupportedFileType(file_path.to_owned())),
        Some(e) => match ext_lang(e.as_str()) {
            None => Err(LspManagerError::UnsupportedFileType(file_path.to_owned())),
            Some(SupportedLanguages::Ruby) => {
                if has_sorbet_type_annotation(head_lines) {
                    Ok(SupportedLanguages::RubySorbet)
                } else {
                    Ok(SupportedLanguages::Ruby)
                }
            },
            Some(l) => Ok(l),
        },
    }
}

/// The protocol language identifier for an extension.
pub open spec fn spec_ext_lang_id(e: Seq<char>) -> Option<Seq<char>> {
    if e == "py"@ {
        Some("python"@)
    } else if e == "ts"@ {
        Some("typescript"@)
    } else if e == "tsx"@ {
        Some("typescriptreact"@)
    } else if e == "js"@ {
        Some("javascript"@)
    } else if e == "jsx"@ {
        Some("javascriptreact"@)
    } else if e == "rs"@ {
        Some("rust"@)
    } else if e == "c"@ || e == "h"@ {
        Some("c"@)
    } else if e == "cpp"@ || e == "cc"@ || e == "cxx"@ || e == "hpp"@ || e == "hxx"@ {
        Some("cpp"@)
    } else if e == "cs"@ {
        Some("csharp"@)
    } else if e == "java"@ {
        Some("java"@)
    } else if e == "go"@ {
        Some("golang"@)
    } else if e == "php"@ {
        Some("php"@)
    } else if e == "rb"@ {
        Some("ruby"@)
    } else {
        None
    }
}

/// Detection depends on the extension alone: two paths with the same
/// extension are assigned the same language tag, the content-inspection
/// rule applying equally to both through the lines handed in.
pub proof fn lemma_detect_same_extension(p1: Seq<char>, p2: Seq<char>, lines: Seq<Seq<char>>)
    requires
        spec_extension(p1) == spec_extension(p2),
    ensures
        spec_detect(p1, lines) == spec_detect(p2, lines),
{
}

/// Map a file path to the protocol language identifier used in document
/// open notifications. Returns `UnsupportedFileType` exactly when no
/// extension is recognized.
pub fn detect_language_string(file_path: &str) -> (r: Result<String, LspManagerError>)
    ensures
        match r {
            Ok(s) => spec_extension(file_path@) matches Some(e) && spec_ext_lang_id(e) == Some(
                s@,
            ),
            Err(e) => e matches LspManagerError::UnsupportedFileType(p) && p@ == file_path@
                && (spec_extension(file_path@) is None || spec_ext_lang_id(
                spec_extension(file_path@).unwrap(),
            ) is None),
        },
{
    match extension_of(file_path) {
        None => Err(LspManagerError::UnsupportedFileType(file_path.to_owned())),
        Some(e) => {
            let id: Option<&'static str> = if str_eq(e.as_str(), "py") {
                Some("python")
            } else if str_eq(e.as_str(), "ts") {
                Some("typescript")
            } else if str_eq(e.as_str(), "tsx") {
                Some("typescriptreact")
            } else if str_eq(e.as_str(), "js") {
                Some("javascript")
            } else if str_eq(e.as_str(), "jsx") {
                Some("javascriptreact")
            } else if str_eq(e.as_str(), "rs") {
                Some("rust")
            } else if str_eq(e.as_str(), "c") || str_eq(e.as_str(), "h") {
                Some("c")
            } else if str_eq(e.as_str(), "cpp") || str_eq(e.as_str(), "cc") || str_eq(
                e.as_str(),
                "cxx",
            ) || str_eq(e.as_str(), "hpp") || str_eq(e.as_str(), "hxx") {
                Some("cpp")
            } else if str_eq(e.as_str(), "cs") {
                Some("csharp")
            } else if str_eq(e.as_str(), "java") {
                Some("java")
            } else if str_eq(e.as_str(), "go") {
                Some("golang")
            } else if str_eq(e.as_str(), "php") {
                Some("php")
            } else if str_eq(e.as_str(), "rb") {
                Some("ruby")
            } else {
                None
            };
            match id {
                Some(s) => Ok(s.to_owned()),
                None => Err(LspManagerError::UnsupportedFileType(file_path.to_owned())),
            }
        },
    }
}

} // verus!
