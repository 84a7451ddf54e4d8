//! Ruby toolchain selection: read the project's pinned interpreter
//! version out of its version file or lockfile, and pick the version the
//! analyzer should run under. The file contents are handed in by the
//! runtime; the decisions here are pure.
use vstd::prelude::*;

use crate::manager::contains_view;
use crate::text::{has_prefix, spec_lines, spec_trim, split_lines, str_eq, str_has_prefix,
    trim_str};

verus! {

/// Whether a character may appear in a version number.
pub open spec fn is_version_char(c: char) -> bool {
    (48 <= c as u32 && c as u32 <= 57) || c == '.'
}

/// The longest prefix of digits and dots.
pub open spec fn version_prefix(s: Seq<char>) -> Seq<char>
    decreases s.len(),
{
    if s.len() > 0 && is_version_char(s[0]) {
        seq![s[0]] + version_prefix(s.drop_first())
    } else {
        Seq::<char>::empty()
    }
}

fn version_prefix_str(s: &str) -> (r: String)
    ensures
        r@ == version_prefix(s@),
    decreases s@.len(),
{
    let len = s.unicode_len();
    if len > 0 {
        let c = s.get_char(0);
        let u = c as u32;
        if (48 <= u && u <= 57) || c == '.' {
            let rest = s.substring_char(1, len);
            proof {
                assert(rest@ =~= s@.drop_first());
            }
            let tail = version_prefix_str(rest);
            let head = s.substring_char(0, 1);
            proof {
                assert(head@ =~= seq![s@[0]]);
            }
            let mut r = head.to_owned();
            r.append(tail.as_str());
            return r;
        }
    }
    String::new()
}

/// The version named by a lockfile: the first line reading `RUBY VERSION`
/// opens a section whose next line, of the form `ruby <version><suffix>`,
/// carries the version as its leading run of digits and dots. An empty
/// run, a missing section, or a malformed next line yields nothing.
pub open spec fn spec_lockfile_version(lines: Seq<Seq<char>>) -> Option<Seq<char>>
    decreases lines.len(),
{
    if lines.len() == 0 {
        None
    } else if spec_trim(lines[0]) == "RUBY VERSION"@ {
        if lines.len() < 2 {
            None
        } else {
            let t = spec_trim(lines[1]);
            if has_prefix(t, "ruby "@) {
                let ver = version_prefix(t.subrange(5, t.len() as int));
                if ver.len() > 0 {
                    Some(ver)
                } else {
                    None
                }
            } else {
                None
            }
        }
    } else {
        spec_lockfile_version(lines.drop_first())
    }
}

fn lockfile_version_from(lines: &Vec<String>, from: usize) -> (r: Option<String>)
    requires
        from <= lines@.len(),
    ensures
        ({
            let sub = lines@.map_values(|l: String| l@).subrange(from as int, lines@.len() as int);
            match r {
                Some(v) => spec_lockfile_version(sub) == Some(v@),
                None => spec_lockfile_version(sub) is None,
            }
        }),
    decreases lines@.len() - from,
{
    let ghost mapped = lines@.map_values(|l: String| l@);
    let ghost sub = mapped.subrange(from as int, lines@.len() as int);
    if from == lines.len() {
        proof {
            assert(sub =~= Seq::<Seq<char>>::empty());
        }
        return None;
    }
    proof {
        assert(sub[0] == mapped[from as int]);
        assert(sub.drop_first() =~= mapped.subrange(from + 1, lines@.len() as int));
    }
    let t0 = trim_str(lines[from].as_str());
    if str_eq(t0.as_str(), "RUBY VERSION") {
        if from + 1 >= lines.len() {
            proof {
                assert(sub.len() < 2);
            }
            return None;
        }
        proof {
            assert(sub[1] == mapped[from + 1]);
        }
        let t = trim_str(lines[from + 1].as_str());
        if str_has_prefix(t.as_str(), "ruby ") {
            proof {
                reveal_strlit("ruby ");
            }
            let tlen = t.as_str().unicode_len();
            let after = t.as_str().substring_char(5, tlen);
            proof {
                assert(after@ =~= spec_trim(sub[1]).subrange(5, spec_trim(sub[1]).len() as int));
            }
            let ver = version_prefix_str(after);
            if ver.as_str().unicode_len() > 0 {
                Some(ver)
            } else {
                None
            }
        } else {
            None
        }
    } else {
        lockfile_version_from(lines, from + 1)
    }
}

/// The project's pinned interpreter version: the trimmed content of the
/// version file if it is non-empty, else the version named by the
/// lockfile's interpreter section, else nothing. `version_file` and
/// `lockfile` hold the contents of the two files, absent when unreadable.
pub fn detect_project_ruby_version(version_file: Option<&String>, lockfile: Option<&String>) -> (r:
    Option<String>)
    ensures
        ({
            let from_file = match version_file {
                Some(c) => if spec_trim(c@).len() > 0 {
                    Some(spec_trim(c@))
                } else {
                    None
                },
                None => None,
            };
            match from_file {
                Some(v) => r matches Some(s) && s@ == v,
                None => match lockfile {
                    Some(c) => match spec_lockfile_version(spec_lines(c@)) {
                        Some(v) => r matches Some(s) && s@ == v,
                        None => r is None,
                    },
                    None => r is None,
                },
            }
        }),
{
    match version_file {
        Some(c) => {
            let t = trim_str(c.as_str());
            if t.as_str().unicode_len() > 0 {
                return Some(t);
            }
        },
        None => {},
    }
    match lockfile {
        Some(c) => {
            let lines = split_lines(c.as_str());
            let r = lockfile_version_from(&lines, 0);
            proof {
                let mapped = lines@.map_values(|l: String| l@);
                assert(mapped.subrange(0, lines@.len() as int) =~= mapped);
            }
            r
        },
        None => None,
    }
}

/// Whether the pinned version is installed under the version manager:
/// membership in the enumerated installed versions, which the runtime
/// reads from the version manager's directory.
pub fn rbenv_version_installed(ver: &str, installed_versions: &Vec<String>) -> (r: bool)
    ensures
        r == contains_view(installed_versions@, ver@),
{
    crate::manager::file_in_list(installed_versions, ver)
}

/// The version manager's global version: the trimmed content of its
/// version file, absent when the file is unreadable or blank.
pub fn rbenv_global(version_file: Option<&String>) -> (r: Option<String>)
    ensures
        match version_file {
            Some(c) => if spec_trim(c@).len() > 0 {
                r matches Some(s) && s@ == spec_trim(c@)
            } else {
                r is None
            },
            None => r is None,
        },
{
    match version_file {
        Some(c) => {
            let t = trim_str(c.as_str());
            if t.as_str().unicode_len() > 0 {
                Some(t)
            } else {
                None
            }
        },
        None => None,
    }
}

/// Choose the interpreter version the analyzer runs under: the project's
/// pinned version when it is installed; otherwise the global version, if
/// any; with no pinned version at all, the system interpreter (`None`).
pub fn choose_ruby_version(
    detected: Option<&String>,
    installed_versions: &Vec<String>,
    global: Option<&String>,
) -> (r: Option<String>)
    ensures
        match detected {
            Some(v) => if contains_view(installed_versions@, v@) {
                r matches Some(s) && s@ == v@
            } else {
                match global {
                    Some(g) => r matches Some(s) && s@ == g@,
                    None => r is None,
                }
            },
            None => r is None,
        },
{
    match detected {
        Some(v) => {
            if rbenv_version_installed(v.as_str(), installed_versions) {
                Some(v.clone())
            } else {
                match global {
                    Some(g) => Some(g.clone()),
                    None => None,
                }
            }
        },
        None => None,
    }
}

} // verus!
