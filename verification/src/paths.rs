//! Path arithmetic on workspace-relative and absolute path strings, and
//! the workspace-folder resolution walked from project markers.
use vstd::prelude::*;

use crate::manager::contains_view;
use crate::text::{has_prefix, rfind_char, rfind_char_str, str_eq, str_has_prefix};

verus! {

/// The parent directory of a path string: everything before the last
/// separator. The root and the empty path have no parent; a bare name's
/// parent is the empty path. Paths are taken without a trailing
/// separator.
pub open spec fn spec_parent(s: Seq<char>) -> Option<Seq<char>> {
    if s.len() == 0 || s == "/"@ {
        None
    } else {
        let i = rfind_char(s, '/');
        if i == -1 {
            Some(Seq::<char>::empty())
        } else if i == 0 {
            Some("/"@)
        } else {
            Some(s.subrange(0, i))
        }
    }
}

/// The parent directory of a path string.
pub fn parent_of(path: &str) -> (r: Option<String>)
    ensures
        match r {
            Some(p) => spec_parent(path@) == Some(p@),
            None => spec_parent(path@) is None,
        },
{
    let len = path.unicode_len();
    if len == 0 || str_eq(path, "/") {
        return None;
    }
    match rfind_char_str(path, '/') {
        None => Some(String::new()),
        Some(0) => {
            proof {
                reveal_strlit("/");
            }
            Some("/".to_owned())
        },
        Some(i) => Some(path.substring_char(0, i).to_owned()),
    }
}

/// A path made relative to the mount directory: the prefix and its
/// separator are stripped; the mount directory itself becomes the empty
/// path; a path outside the mount directory is returned unchanged.
pub open spec fn spec_relative_to(path: Seq<char>, mount: Seq<char>) -> Seq<char> {
    if path == mount {
        Seq::<char>::empty()
    } else if has_prefix(path, mount + "/"@) {
        path.subrange(mount.len() as int + 1, path.len() as int)
    } else {
        path
    }
}

/// Strip the mount directory from an absolute path, yielding the
/// workspace-relative path the external interfaces use. A path outside
/// the mount directory is returned unchanged.
pub fn absolute_path_to_relative_path_string(path: &str, mount_dir: &str) -> (r: String)
    ensures
        r@ == spec_relative_to(path@, mount_dir@),
{
    proof {
        reveal_strlit("/");
    }
    if str_eq(path, mount_dir) {
        return String::new();
    }
    let mut pref = mount_dir.to_owned();
    pref.append("/");
    if str_has_prefix(path, pref.as_str()) {
        let plen = path.unicode_len();
        let cut = pref.as_str().unicode_len();
        let rest = path.substring_char(cut, plen);
        proof {
            assert(rest@ =~= path@.subrange(mount_dir@.len() as int + 1, path@.len() as int));
        }
        rest.to_owned()
    } else {
        path.to_owned()
    }
}

/// Join a directory and a name with a separator; under the root or the
/// empty directory no extra separator is inserted.
pub open spec fn spec_join_path(dir: Seq<char>, name: Seq<char>) -> Seq<char> {
    if dir.len() == 0 {
        name
    } else if dir[dir.len() - 1] == '/' {
        dir + name
    } else {
        dir + "/"@ + name
    }
}

/// Join a directory and a name.
pub fn join_path(dir: &str, name: &str) -> (r: String)
    ensures
        r@ == spec_join_path(dir@, name@),
{
    let dlen = dir.unicode_len();
    if dlen == 0 {
        name.to_owned()
    } else if dir.get_char(dlen - 1) == '/' {
        let mut r = dir.to_owned();
        r.append(name);
        r
    } else {
        let mut r = dir.to_owned();
        r.append("/");
        r.append(name);
        r
    }
}

/// The nearest ancestor of `start` (including itself) whose directory
/// holds a child named `needle`, judged against the file list `files`;
/// `None` when no ancestor does.
pub open spec fn spec_nearest_ancestor(
    start: Seq<char>,
    needle: Seq<char>,
    files: Seq<String>,
) -> Option<Seq<char>>
    decreases start.len(),
{
    if contains_view(files, spec_join_path(start, needle)) {
        Some(start)
    } else {
        match spec_parent(start) {
            Some(p) => if p.len() < start.len() {
                spec_nearest_ancestor(p, needle, files)
            } else {
                None
            },
            None => None,
        }
    }
}

/// Walk upward from `start` toward the root, returning the first
/// directory that holds a child named `needle`. Presence is judged
/// against `files`, the enumerated paths of the filesystem.
pub fn nearest_ancestor_with(start: &str, needle: &str, files: &Vec<String>) -> (r: Option<String>)
    ensures
        match r {
            Some(d) => spec_nearest_ancestor(start@, needle@, files@) == Some(d@),
            None => spec_nearest_ancestor(start@, needle@, files@) is None,
        },
    decreases start@.len(),
{
    let candidate = join_path(start, needle);
    if crate::manager::file_in_list(files, candidate.as_str()) {
        return Some(start.to_owned());
    }
    match parent_of(start) {
        Some(p) => {
            let plen = p.as_str().unicode_len();
            let slen = start.unicode_len();
            if plen < slen {
                nearest_ancestor_with(p.as_str(), needle, files)
            } else {
                None
            }
        },
        None => None,
    }
}

/// The single workspace folder reported for a hierarchical-marker
/// language: the nearest ancestor with a multi-module marker; failing
/// that, the nearest with a module marker; failing both, the workspace
/// root itself. Exactly one folder comes back, so a multi-module marker
/// and its enclosed module markers are never both reported.
pub fn find_workspace_folders(
    root_path: &str,
    multi_marker: &str,
    module_marker: &str,
    files: &Vec<String>,
) -> (r: Vec<String>)
    ensures
        r@.len() == 1,
        r@[0]@ == match spec_nearest_ancestor(root_path@, multi_marker@, files@) {
            Some(w) => w,
            None => match spec_nearest_ancestor(root_path@, module_marker@, files@) {
                Some(m) => m,
                None => root_path@,
            },
        },
{
    let mut r: Vec<String> = Vec::new();
    match nearest_ancestor_with(root_path, multi_marker, files) {
        Some(w) => r.push(w),
        None => match nearest_ancestor_with(root_path, module_marker, files) {
            Some(m) => r.push(m),
            None => r.push(root_path.to_owned()),
        },
    }
    r
}

/// The URL type of the url crate, declared so that locations parsed by
/// the runtime can pass through the library's signatures. Opaque: the
/// library reads it only through the trusted conversions below.
#[verifier::external_type_specification]
#[verifier::external_body]
pub struct ExUrl(url::Url);

/// Relies on url::Url::to_file_path: the percent-decoded filesystem path
/// of a file URL, or nothing when the host is remote or the path cannot
/// form an OS path. The URL value is opaque, so nothing further is
/// promised; the path arithmetic that follows is verified for every
/// outcome.
#[verifier::external_body]
fn url_to_file_path(u: &url::Url) -> (r: Option<String>) {
    u.to_file_path().ok().map(|p| p.to_string_lossy().into_owned())
}

/// Relies on url::Url::path: the URL's path component, used as a
/// fallback when the URL does not convert to a filesystem path.
#[verifier::external_body]
fn url_path_string(u: &url::Url) -> (r: String) {
    u.path().to_owned()
}

/// The workspace-relative path named by a location URI: the URI's
/// filesystem path (or, failing the conversion, its raw path component)
/// made relative to the mount directory. Whatever path the URI yields,
/// the result is that path stripped of the mount prefix.
pub fn uri_to_relative_path_string(uri: &url::Url, mount_dir: &str) -> (r: String)
    ensures
        exists|p: Seq<char>| r@ == spec_relative_to(p, mount_dir@),
{
    match url_to_file_path(uri) {
        Some(p) => {
            let rel = absolute_path_to_relative_path_string(p.as_str(), mount_dir);
            proof {
                assert(rel@ == spec_relative_to(p@, mount_dir@));
            }
            rel
        },
        None => {
            let p = url_path_string(uri);
            let rel = absolute_path_to_relative_path_string(p.as_str(), mount_dir);
            proof {
                assert(rel@ == spec_relative_to(p@, mount_dir@));
            }
            rel
        },
    }
}

} // verus!
