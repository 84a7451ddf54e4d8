//! The workspace scanner: enumerate files under a root that match the
//! accepted globs, pruning excluded directories, honoring ignore files,
//! and reporting files or their parent directories.
use vstd::prelude::*;

use crate::api_types::SupportedLanguages;
use crate::manager::contains_view;
use crate::paths::{parent_of, spec_parent};
use crate::text::str_eq;

verus! {

/// What `glob` pattern matching returns for a pattern and a path: a
/// function of the two strings alone. A pattern that does not compile
/// matches nothing.
pub uninterp spec fn pattern_accepts(pattern: Seq<char>, path: Seq<char>) -> bool;

/// Relies on glob::Pattern: `new` compiles the pattern and `matches`
/// tests the path against it; the outcome depends on the two strings
/// alone. A pattern that fails to compile matches nothing.
#[verifier::external_body]
fn glob_match(pattern: &str, path: &str) -> (r: bool)
    ensures
        r == pattern_accepts(pattern@, path@),
{
    glob::Pattern::new(pattern).map(|p| p.matches(path)).unwrap_or(false)
}

/// Whether any pattern of the set accepts the path.
pub open spec fn spec_any_match(patterns: Seq<String>, path: Seq<char>) -> bool {
    exists|i: int| 0 <= i < patterns.len() && pattern_accepts((#[trigger] patterns[i])@, path)
}

/// Test a path against a set of glob patterns; true when at least one
/// matches.
pub fn any_pattern_matches(patterns: &Vec<String>, path: &str) -> (r: bool)
    ensures
        r == spec_any_match(patterns@, path@),
{
    let mut i: usize = 0;
    let n = patterns.len();
    while i < n
        invariant
            0 <= i <= n == patterns@.len(),
            forall|j: int| 0 <= j < i ==> !pattern_accepts((#[trigger] patterns@[j])@, path@),
        decreases n - i,
    {
        if glob_match(patterns[i].as_str(), path) {
            return true;
        }
        i = i + 1;
    }
    false
}

/// One entry reported by the directory walk.
#[derive(Debug)]
pub struct WalkEntry {
    pub path: String,
    pub is_dir: bool,
    pub is_file: bool,
}

/// Relies on ignore::WalkBuilder: walks the tree under `root`, honoring
/// ignore files when `respect_gitignore` is set and pruning entries whose
/// path matches an exclude pattern. What comes back depends on what is on
/// disk, so nothing is promised of it; the filtering after the walk is
/// verified for every outcome.
#[verifier::external_body]
fn walk_workspace(root: &str, exclude_patterns: &Vec<String>, respect_gitignore: bool) -> (r: Vec<
    WalkEntry,
>) {
    let ex: Vec<String> = exclude_patterns.clone();
    let walk = ignore::WalkBuilder::new(root).git_ignore(respect_gitignore).filter_entry(
        move |e| !any_pattern_matches(&ex, &e.path().to_string_lossy()),
    ).build();
    let mut out: Vec<WalkEntry> = Vec::new();
    for res in walk {
        if let Ok(e) = res {
            let p = e.path();
            let entry = WalkEntry { path: p.to_string_lossy().into_owned(), is_dir: p.is_dir(), is_file: p.is_file() };
            out.push(entry);
        }
    }
    out
}

/// The kind of path a search reports: files themselves, or the directory
/// that holds them.
#[derive(Clone, Copy, Debug)]
pub enum FileType {
    Dir,
    File,
}

impl FileType {
    /// The effective path an accepted entry contributes: a directory
    /// stands for itself, a file stands for itself in `File` mode and for
    /// its parent directory in `Dir` mode.
    pub open spec fn spec_accept(self, path: Seq<char>, is_dir: bool, is_file: bool) -> Option<
        Seq<char>,
    > {
        match self {
            FileType::Dir => if is_dir {
                Some(path)
            } else if is_file {
                spec_parent(path)
            } else {
                None
            },
            FileType::File => if is_file {
                Some(path)
            } else {
                None
            },
        }
    }

    /// Get the effective path that should be added, if possible.
    pub fn accept(self, entry: &WalkEntry) -> (r: Option<String>)
        ensures
            match r {
                Some(p) => self.spec_accept(entry.path@, entry.is_dir, entry.is_file) == Some(p@),
                None => self.spec_accept(entry.path@, entry.is_dir, entry.is_file) is None,
            },
    {
        match self {
            FileType::Dir => {
                if entry.is_dir {
                    Some(entry.path.clone())
                } else if entry.is_file {
                    parent_of(entry.path.as_str())
                } else {
                    None
                }
            },
            FileType::File => {
                if entry.is_file {
                    Some(entry.path.clone())
                } else {
                    None
                }
            },
        }
    }
}

/// Whether some walk entry is accepted with effective path `x`: it
/// matches an accepted glob and contributes `x` under `ft`.
pub open spec fn spec_accepted(
    entries: Seq<WalkEntry>,
    globs: Seq<String>,
    ft: FileType,
    x: Seq<char>,
) -> bool {
    exists|k: int|
        0 <= k < entries.len() && spec_any_match(globs, (#[trigger] entries[k]).path@)
            && ft.spec_accept(entries[k].path@, entries[k].is_dir, entries[k].is_file) == Some(x)
}

/// The search result recognized for a walk: deduplicated, and holding
/// exactly the effective paths of the accepted entries.
pub open spec fn search_post(
    r: Seq<String>,
    entries: Seq<WalkEntry>,
    globs: Seq<String>,
    ft: FileType,
) -> bool {
    &&& forall|i: int, j: int| 0 <= i < j < r.len() ==> (#[trigger] r[i])@ != (#[trigger] r[j])@
    &&& forall|x: Seq<char>| #[trigger]
        contains_view(r, x) == spec_accepted(entries, globs, ft, x)
}

/// Filter walk entries: keep those matching an accepted glob, map each
/// to its effective path, and deduplicate. The result is a set: it holds
/// exactly the effective paths of the accepted entries, each once.
pub fn filter_walk_entries(entries: &Vec<WalkEntry>, globs: &Vec<String>, ft: FileType) -> (r:
    Vec<String>)
    ensures
        search_post(r@, entries@, globs@, ft),
{
    let ghost inc = globs@;
    let mut out: Vec<String> = Vec::new();
    let mut k: usize = 0;
    let n = entries.len();
    while k < n
        invariant
            0 <= k <= n == entries@.len(),
            inc == globs@,
            forall|i: int, j: int|
                0 <= i < j < out@.len() ==> (#[trigger] out@[i])@ != (#[trigger] out@[j])@,
            forall|x: Seq<char>| #[trigger]
                contains_view(out@, x) == spec_accepted(
                    entries@.subrange(0, k as int),
                    inc,
                    ft,
                    x,
                ),
        decreases n - k,
    {
        let ghost subk = entries@.subrange(0, k as int);
        let ghost subk1 = entries@.subrange(0, k + 1);
        proof {
            assert(forall|i: int| 0 <= i < k ==> subk1[i] == #[trigger] subk[i]);
            assert(subk1[k as int] == entries@[k as int]);
        }
        let entry = &entries[k];
        let mut contributed: Option<String> = None;
        if any_pattern_matches(globs, entry.path.as_str()) {
            contributed = ft.accept(entry);
        }
        match contributed {
            Some(p) => {
                let mut present = false;
                let mut w: usize = 0;
                let olen = out.len();
                while w < olen
                    invariant
                        0 <= w <= olen == out@.len(),
                        present == exists|i: int| 0 <= i < w && (#[trigger] out@[i])@ == p@,
                    decreases olen - w,
                {
                    if str_eq(out[w].as_str(), p.as_str()) {
                        present = true;
                    }
                    w = w + 1;
                }
                if !present {
                    let ghost pre = out@;
                    out.push(p);
                    proof {
                        assert(forall|i: int| 0 <= i < pre.len() ==> out@[i] == #[trigger] pre[i]);
                        assert forall|x: Seq<char>| #[trigger] contains_view(out@, x)
                            == spec_accepted(subk1, inc, ft, x) by {
                            if contains_view(out@, x) {
                                let u = choose|u: int|
                                    0 <= u < out@.len() && (#[trigger] out@[u])@ == x;
                                if u < pre.len() {
                                    assert(contains_view(pre, x));
                                    let e = choose|e: int|
                                        0 <= e < subk.len() && spec_any_match(
                                            inc,
                                            (#[trigger] subk[e]).path@,
                                        ) && ft.spec_accept(
                                            subk[e].path@,
                                            subk[e].is_dir,
                                            subk[e].is_file,
                                        ) == Some(x);
                                    assert(subk1[e] == subk[e]);
                                    assert(spec_accepted(subk1, inc, ft, x));
                                } else {
                                    assert(x == out@[out@.len() - 1]@);
                                    assert(spec_any_match(inc, subk1[k as int].path@));
                                    assert(ft.spec_accept(
                                        subk1[k as int].path@,
                                        subk1[k as int].is_dir,
                                        subk1[k as int].is_file,
                                    ) == Some(x));
                                    assert(spec_accepted(subk1, inc, ft, x));
                                }
                            }
                            if spec_accepted(subk1, inc, ft, x) {
                                let e = choose|e: int|
                                    0 <= e < subk1.len() && spec_any_match(
                                        inc,
                                        (#[trigger] subk1[e]).path@,
                                    ) && ft.spec_accept(
                                        subk1[e].path@,
                                        subk1[e].is_dir,
                                        subk1[e].is_file,
                                    ) == Some(x);
                                if e < k {
                                    assert(subk[e] == subk1[e]);
                                    assert(spec_accepted(subk, inc, ft, x));
                                    assert(contains_view(pre, x));
                                    let u = choose|u: int|
                                        0 <= u < pre.len() && (#[trigger] pre[u])@ == x;
                                    assert(out@[u]@ == x);
                                } else {
                                    assert(x == out@[out@.len() - 1]@);
                                }
                            }
                        };
                    }
                } else {
                    proof {
                        let u0 = choose|u: int| 0 <= u < out@.len() && (#[trigger] out@[u])@ == p@;
                        assert(contains_view(out@, p@));
                        assert forall|x: Seq<char>| #[trigger] contains_view(out@, x)
                            == spec_accepted(subk1, inc, ft, x) by {
                            if contains_view(out@, x) {
                                let e = choose|e: int|
                                    0 <= e < subk.len() && spec_any_match(
                                        inc,
                                        (#[trigger] subk[e]).path@,
                                    ) && ft.spec_accept(
                                        subk[e].path@,
                                        subk[e].is_dir,
                                        subk[e].is_file,
                                    ) == Some(x);
                                assert(subk1[e] == subk[e]);
                                assert(spec_accepted(subk1, inc, ft, x));
                            }
                            if spec_accepted(subk1, inc, ft, x) {
                                let e = choose|e: int|
                                    0 <= e < subk1.len() && spec_any_match(
                                        inc,
                                        (#[trigger] subk1[e]).path@,
                                    ) && ft.spec_accept(
                                        subk1[e].path@,
                                        subk1[e].is_dir,
                                        subk1[e].is_file,
                                    ) == Some(x);
                                if e < k {
                                    assert(subk[e] == subk1[e]);
                                    assert(spec_accepted(subk, inc, ft, x));
                                } else {
                                    assert(x == p@);
                                }
                            }
                        };
                    }
                }
            },
            None => {
                proof {
                    assert forall|x: Seq<char>| #[trigger] contains_view(out@, x) == spec_accepted(
                        subk1,
                        inc,
                        ft,
                        x,
                    ) by {
                        if contains_view(out@, x) {
                            let e = choose|e: int|
                                0 <= e < subk.len() && spec_any_match(
                                    inc,
                                    (#[trigger] subk[e]).path@,
                                ) && ft.spec_accept(
                                    subk[e].path@,
                                    subk[e].is_dir,
                                    subk[e].is_file,
                                ) == Some(x);
                            assert(subk1[e] == subk[e]);
                            assert(spec_accepted(subk1, inc, ft, x));
                        }
                        if spec_accepted(subk1, inc, ft, x) {
                            let e = choose|e: int|
                                0 <= e < subk1.len() && spec_any_match(
                                    inc,
                                    (#[trigger] subk1[e]).path@,
                                ) && ft.spec_accept(
                                    subk1[e].path@,
                                    subk1[e].is_dir,
                                    subk1[e].is_file,
                                ) == Some(x);
                            if e < k {
                                assert(subk[e] == subk1[e]);
                                assert(spec_accepted(subk, inc, ft, x));
                            } else {
                                assert(subk1[e] == entries@[k as int]);
                                assert(false);
                            }
                        }
                    };
                }
            },
        }
        k = k + 1;
    }
    proof {
        assert(entries@.subrange(0, n as int) =~= entries@);
    }
    out
}

/// The search outcome is a function of the set of walked entries alone:
/// two walks that report the same entries, in any order and multiplicity,
/// accept exactly the same effective paths. A sequential and a parallel
/// walk over one tree therefore yield the same set.
pub proof fn lemma_search_order_independent(
    es1: Seq<WalkEntry>,
    es2: Seq<WalkEntry>,
    globs: Seq<String>,
    ft: FileType,
)
    requires
        forall|e: WalkEntry| es1.contains(e) <==> es2.contains(e),
    ensures
        forall|x: Seq<char>| #[trigger]
            spec_accepted(es1, globs, ft, x) == spec_accepted(es2, globs, ft, x),
{
    assert forall|x: Seq<char>| #[trigger] spec_accepted(es1, globs, ft, x) == spec_accepted(
        es2,
        globs,
        ft,
        x,
    ) by {
        if spec_accepted(es1, globs, ft, x) {
            let k = choose|k: int|
                0 <= k < es1.len() && spec_any_match(globs, (#[trigger] es1[k]).path@)
                    && ft.spec_accept(es1[k].path@, es1[k].is_dir, es1[k].is_file) == Some(x);
            assert(es1.contains(es1[k]));
            assert(es2.contains(es1[k]));
            let j = choose|j: int| 0 <= j < es2.len() && es2[j] == es1[k];
            assert(spec_accepted(es2, globs, ft, x));
        }
        if spec_accepted(es2, globs, ft, x) {
            let k = choose|k: int|
                0 <= k < es2.len() && spec_any_match(globs, (#[trigger] es2[k]).path@)
                    && ft.spec_accept(es2[k].path@, es2[k].is_dir, es2[k].is_file) == Some(x);
            assert(es2.contains(es2[k]));
            assert(es1.contains(es2[k]));
            let j = choose|j: int| 0 <= j < es1.len() && es1[j] == es2[k];
            assert(spec_accepted(es1, globs, ft, x));
        }
    };
}

/// Search the tree under `path` and return the deduplicated set of
/// effective paths of entries accepted by the match globs; exclude
/// patterns prune the walk, and ignore files are honored when asked.
/// The result is a set over whatever entries the walk reported.
pub fn search_paths(
    path: &str,
    match_patterns: &Vec<String>,
    exclude_patterns: &Vec<String>,
    respect_gitignore: bool,
    file_type: FileType,
) -> (r: Vec<String>)
    ensures
        exists|es: Seq<WalkEntry>| #[trigger] search_post(r@, es, match_patterns@, file_type),
{
    let entries = walk_workspace(path, exclude_patterns, respect_gitignore);
    let r = filter_walk_entries(&entries, match_patterns, file_type);
    proof {
        assert(search_post(r@, entries@, match_patterns@, file_type));
    }
    r
}

/// The sequential variant of `search_paths`: same contract. Whether the
/// walk runs sequentially or in parallel is a scheduling detail the
/// contract leaves open; the accepted set is the same either way.
pub fn search_paths_sequential(
    path: &str,
    match_patterns: &Vec<String>,
    exclude_patterns: &Vec<String>,
    respect_gitignore: bool,
    file_type: FileType,
) -> (r: Vec<String>)
    ensures
        exists|es: Seq<WalkEntry>| #[trigger] search_post(r@, es, match_patterns@, file_type),
{
    search_paths(path, match_patterns, exclude_patterns, respect_gitignore, file_type)
}

/// Search for files matching the given globs.
pub fn search_files(
    path: &str,
    match_patterns: &Vec<String>,
    exclude_patterns: &Vec<String>,
    respect_gitignore: bool,
) -> (r: Vec<String>)
    ensures
        exists|es: Seq<WalkEntry>| #[trigger] search_post(
            r@,
            es,
            match_patterns@,
            FileType::File,
        ),
{
    search_paths(path, match_patterns, exclude_patterns, respect_gitignore, FileType::File)
}

/// Search for the directories that hold matching entries.
pub fn search_directories(
    root_path: &str,
    match_patterns: &Vec<String>,
    exclude_patterns: &Vec<String>,
) -> (r: Vec<String>)
    ensures
        exists|es: Seq<WalkEntry>| #[trigger] search_post(
            r@,
            es,
            match_patterns@,
            FileType::Dir,
        ),
{
    search_paths(root_path, match_patterns, exclude_patterns, true, FileType::Dir)
}

/// The globs naming each language's source files.
pub open spec fn spec_language_file_patterns(lang: SupportedLanguages) -> Seq<Seq<char>> {
    match lang {
        SupportedLanguages::Python => seq!["**/*.py"@],
        SupportedLanguages::TypeScriptJavaScript => seq![
            "**/*.ts"@,
            "**/*.tsx"@,
            "**/*.js"@,
            "**/*.jsx"@,
        ],
        SupportedLanguages::Rust => seq!["**/*.rs"@],
        SupportedLanguages::CPP => seq![
            "**/*.c"@,
            "**/*.h"@,
            "**/*.cpp"@,
            "**/*.cc"@,
            "**/*.cxx"@,
            "**/*.hpp"@,
            "**/*.hxx"@,
        ],
        SupportedLanguages::CSharp => seq!["**/*.cs"@],
        SupportedLanguages::Java => seq!["**/*.java"@],
        SupportedLanguages::Golang => seq!["**/*.go"@],
        SupportedLanguages::PHP => seq!["**/*.php"@],
        SupportedLanguages::Ruby => seq!["**/*.rb"@],
        SupportedLanguages::RubySorbet => seq!["**/*.rb"@],
    }
}

/// The globs naming each language's source files: exactly the patterns
/// of `spec_language_file_patterns`, in order.
pub fn language_file_patterns(lang: SupportedLanguages) -> (r: Vec<String>)
    ensures
        r@.len() == spec_language_file_patterns(lang).len(),
        forall|i: int|
            0 <= i < r@.len() ==> (#[trigger] r@[i])@ == spec_language_file_patterns(lang)[i],
{
    let mut r: Vec<String> = Vec::new();
    match lang {
        SupportedLanguages::Python => r.push("**/*.py".to_owned()),
        SupportedLanguages::TypeScriptJavaScript => {
            r.push("**/*.ts".to_owned());
            r.push("**/*.tsx".to_owned());
            r.push("**/*.js".to_owned());
            r.push("**/*.jsx".to_owned());
        },
        SupportedLanguages::Rust => r.push("**/*.rs".to_owned()),
        SupportedLanguages::CPP => {
            r.push("**/*.c".to_owned());
            r.push("**/*.h".to_owned());
            r.push("**/*.cpp".to_owned());
            r.push("**/*.cc".to_owned());
            r.push("**/*.cxx".to_owned());
            r.push("**/*.hpp".to_owned());
            r.push("**/*.hxx".to_owned());
        },
        SupportedLanguages::CSharp => r.push("**/*.cs".to_owned()),
        SupportedLanguages::Java => r.push("**/*.java".to_owned()),
        SupportedLanguages::Golang => r.push("**/*.go".to_owned()),
        SupportedLanguages::PHP => r.push("**/*.php".to_owned()),
        SupportedLanguages::Ruby => r.push("**/*.rb".to_owned()),
        SupportedLanguages::RubySorbet => r.push("**/*.rb".to_owned()),
    }
    r
}

/// The exclude globs applied to every workspace walk.
pub open spec fn spec_default_exclude_patterns() -> Seq<Seq<char>> {
    seq![
        "**/node_modules/**"@,
        "**/__pycache__/**"@,
        "**/.git/**"@,
        "**/dist/**"@,
        "**/target/**"@,
        "**/.venv/**"@,
    ]
}

/// The exclude globs applied to every workspace walk: exactly those of
/// `spec_default_exclude_patterns`, in order.
pub fn default_exclude_patterns() -> (r: Vec<String>)
    ensures
        r@.len() == spec_default_exclude_patterns().len(),
        forall|i: int|
            0 <= i < r@.len() ==> (#[trigger] r@[i])@ == spec_default_exclude_patterns()[i],
{
    let mut r: Vec<String> = Vec::new();
    r.push("**/node_modules/**".to_owned());
    r.push("**/__pycache__/**".to_owned());
    r.push("**/.git/**".to_owned());
    r.push("**/dist/**".to_owned());
    r.push("**/target/**".to_owned());
    r.push("**/.venv/**".to_owned());
    r
}

/// The canonical position of a language in the detection order.
pub open spec fn lang_index(l: SupportedLanguages) -> int {
    match l {
        SupportedLanguages::Python => 0,
        SupportedLanguages::TypeScriptJavaScript => 1,
        SupportedLanguages::Rust => 2,
        SupportedLanguages::CPP => 3,
        SupportedLanguages::CSharp => 4,
        SupportedLanguages::Java => 5,
        SupportedLanguages::Golang => 6,
        SupportedLanguages::PHP => 7,
        SupportedLanguages::Ruby => 8,
        SupportedLanguages::RubySorbet => 9,
    }
}

/// Whether the enabled-languages restriction admits `l`: every language
/// when no restriction is set, membership otherwise.
pub open spec fn spec_admits(enabled: Option<Vec<SupportedLanguages>>, l: SupportedLanguages)
    -> bool {
    match enabled {
        Some(en) => en@.contains(l),
        None => true,
    }
}

/// What workspace detection reports, as a function of the per-language
/// probe outcomes: a language is in the result exactly when the
/// restriction admits it and its probe hit, and the result follows the
/// canonical detection order.
pub open spec fn detection_post(
    r: Seq<SupportedLanguages>,
    hits: Seq<bool>,
    enabled: Option<Vec<SupportedLanguages>>,
) -> bool {
    &&& hits.len() == crate::api_types::spec_all_languages().len()
    &&& forall|l: SupportedLanguages| #[trigger]
        r.contains(l) <==> (spec_admits(enabled, l) && hits[lang_index(l)])
    &&& forall|i: int, j: int|
        0 <= i < j < r.len() ==> lang_index(#[trigger] r[i]) < lang_index(#[trigger] r[j])
}

fn admits(enabled: &Option<Vec<SupportedLanguages>>, lang: SupportedLanguages) -> (r: bool)
    ensures
        r == spec_admits(*enabled, lang),
{
    match enabled {
        Some(en) => {
            let mut found = false;
            let mut w: usize = 0;
            let elen = en.len();
            while w < elen
                invariant
                    0 <= w <= elen == en@.len(),
                    found == exists|i: int| 0 <= i < w && #[trigger] en@[i] == lang,
                decreases elen - w,
            {
                if en[w] == lang {
                    found = true;
                }
                w = w + 1;
            }
            proof {
                if found {
                    let u = choose|u: int| 0 <= u < en@.len() && #[trigger] en@[u] == lang;
                    assert(en@.contains(lang));
                }
                if en@.contains(lang) {
                    let u = choose|u: int| 0 <= u < en@.len() && #[trigger] en@[u] == lang;
                }
            }
            found
        },
        None => true,
    }
}

/// The detection decision: from the per-language probe outcomes, in
/// canonical order and aligned with `spec_all_languages`, keep exactly
/// the admitted languages whose probe hit.
pub fn detected_languages(
    hits: &Vec<bool>,
    enabled: &Option<Vec<SupportedLanguages>>,
) -> (r: Vec<SupportedLanguages>)
    requires
        hits@.len() == crate::api_types::spec_all_languages().len(),
    ensures
        detection_post(r@, hits@, *enabled),
{
    let candidates = crate::api_types::all_languages();
    let mut r: Vec<SupportedLanguages> = Vec::new();
    let mut k: usize = 0;
    let n = candidates.len();
    while k < n
        invariant
            0 <= k <= n == candidates@.len(),
            candidates@ == crate::api_types::spec_all_languages(),
            hits@.len() == candidates@.len(),
            forall|l: SupportedLanguages| #[trigger]
                r@.contains(l) <==> (spec_admits(*enabled, l) && 0 <= lang_index(l) < k
                    && hits@[lang_index(l)]),
            forall|i: int, j: int|
                0 <= i < j < r@.len() ==> lang_index(#[trigger] r@[i]) < lang_index(
                    #[trigger] r@[j],
                ),
            r@.len() > 0 ==> lang_index(r@[r@.len() - 1]) < k,
        decreases n - k,
    {
        let lang = candidates[k];
        proof {
            assert(lang_index(candidates@[k as int]) == k);
            assert(forall|l: SupportedLanguages|
                #[trigger] lang_index(l) == k ==> l == candidates@[k as int]);
        }
        if admits(enabled, lang) && hits[k] {
            let ghost pre = r@;
            r.push(lang);
            proof {
                assert(forall|i: int| 0 <= i < pre.len() ==> r@[i] == #[trigger] pre[i]);
                assert(r@[r@.len() - 1] == lang);
                assert forall|l: SupportedLanguages| #[trigger] r@.contains(l) <==> (spec_admits(
                    *enabled,
                    l,
                ) && 0 <= lang_index(l) < k + 1 && hits@[lang_index(l)]) by {
                    if r@.contains(l) {
                        let u = choose|u: int| 0 <= u < r@.len() && #[trigger] r@[u] == l;
                        if u < pre.len() {
                            assert(pre.contains(l));
                        } else {
                            assert(l == lang);
                        }
                    }
                    if spec_admits(*enabled, l) && 0 <= lang_index(l) < k + 1 && hits@[lang_index(
                        l,
                    )] {
                        if lang_index(l) < k {
                            assert(pre.contains(l));
                            let u = choose|u: int| 0 <= u < pre.len() && #[trigger] pre[u] == l;
                            assert(r@[u] == l);
                            assert(r@.contains(l));
                        } else {
                            assert(l == lang);
                            assert(r@[r@.len() - 1] == l);
                            assert(r@.contains(l));
                        }
                    }
                };
            }
        } else {
            proof {
                assert forall|l: SupportedLanguages| #[trigger] r@.contains(l) <==> (spec_admits(
                    *enabled,
                    l,
                ) && 0 <= lang_index(l) < k + 1 && hits@[lang_index(l)]) by {
                    if spec_admits(*enabled, l) && 0 <= lang_index(l) < k + 1 && hits@[lang_index(
                        l,
                    )] {
                        if lang_index(l) == k {
                            assert(l == lang);
                            assert(false);
                        }
                    }
                };
            }
        }
        k = k + 1;
    }
    proof {
        assert(forall|l: SupportedLanguages| 0 <= #[trigger] lang_index(l) < 10);
    }
    r
}

/// Detect which languages have any files in the workspace: probe each
/// candidate language with its file globs and the default excludes,
/// honoring ignore files, and keep the admitted languages with at least
/// one hit. The result is `detected_languages` on the observed probe
/// outcomes: which probes hit depends on what is on disk; everything
/// after the probes is fixed.
pub fn detect_languages_in_workspace(
    root_path: &str,
    enabled: &Option<Vec<SupportedLanguages>>,
) -> (r: Vec<SupportedLanguages>)
    ensures
        exists|hits: Seq<bool>| #[trigger] detection_post(r@, hits, *enabled),
{
    let candidates = crate::api_types::all_languages();
    let excludes = default_exclude_patterns();
    let mut hits: Vec<bool> = Vec::new();
    let mut k: usize = 0;
    let n = candidates.len();
    while k < n
        invariant
            0 <= k <= n == candidates@.len(),
            candidates@ == crate::api_types::spec_all_languages(),
            hits@.len() == k,
        decreases n - k,
    {
        let lang = candidates[k];
        let hit = if admits(enabled, lang) {
            let patterns = language_file_patterns(lang);
            let found = search_paths(root_path, &patterns, &excludes, true, FileType::File);
            found.len() > 0
        } else {
            false
        };
        hits.push(hit);
        k = k + 1;
    }
    let r = detected_languages(&hits, enabled);
    proof {
        assert(detection_post(r@, hits@, *enabled));
    }
    r
}

} // verus!
