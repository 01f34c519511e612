use vstd::prelude::*;
use vstd::string::StrSliceExecFns;
use vstd::string::StringExecFns;

use crate::resolve::last_index_of;
use crate::resolve::lemma_last_index_bounds;
use crate::resolve::split_path;
use crate::resolve::split_path_exec;

verus! {

// ---------------------------------------------------------------------------
// Which files a workspace scan keeps.
//
// The walk over the directory tree itself is I/O and lives outside the
// library; it keeps exactly the paths these predicates accept.
// ---------------------------------------------------------------------------

/// The extension of the path's last segment: what follows the last `.`,
/// provided that `.` is past the segment's first character and the
/// segment is not `..`.
pub open spec fn spec_extension(s: Seq<char>) -> Option<Seq<char>> {
    let sl = last_index_of(s, '/');
    let name = s.subrange(sl + 1, s.len() as int);
    let d = last_index_of(name, '.');
    if d >= 1 && name != seq!['.', '.'] {
        Some(name.subrange(d + 1, name.len() as int))
    } else {
        None
    }
}

/// The name after the path's last `/`; the whole path without one.
pub open spec fn spec_basename(s: Seq<char>) -> Seq<char> {
    s.subrange(last_index_of(s, '/') + 1, s.len() as int)
}

/// The name after the path's last `/`, used as a node's display name.
pub fn basename(s: &str) -> (r: String)
    ensures
        r@ == spec_basename(s@),
{
    let n = s.unicode_len();
    let name_start: usize = match crate::resolve::last_index_char(s, '/') {
        Some(i) => i + 1,
        None => 0,
    };
    proof {
        lemma_last_index_bounds(s@, '/');
    }
    s.substring_char(name_start, n).to_owned()
}

/// Whether the path names a source file: its extension is one of `ts`,
/// `tsx`, `js`, `jsx`, `mjs`, `cjs`.
pub open spec fn spec_has_source_extension(s: Seq<char>) -> bool {
    match spec_extension(s) {
        Some(e) => e == "ts"@ || e == "tsx"@ || e == "js"@ || e == "jsx"@ || e == "mjs"@ || e
            == "cjs"@,
        None => false,
    }
}

/// The extension of the path's last segment, if any.
pub fn extension_of(s: &str) -> (r: Option<String>)
    ensures
        match r {
            Some(e) => spec_extension(s@) == Some(e@),
            None => spec_extension(s@) is None,
        },
{
    let n = s.unicode_len();
    let name_start: usize = match crate::resolve::last_index_char(s, '/') {
        Some(i) => i + 1,
        None => 0,
    };
    proof {
        lemma_last_index_bounds(s@, '/');
        assert(name_start == last_index_of(s@, '/') + 1);
    }
    let name = s.substring_char(name_start, n);
    let nlen = name.unicode_len();
    let is_dotdot = nlen == 2 && name.get_char(0) == '.' && name.get_char(1) == '.';
    proof {
        if is_dotdot {
            assert(name@ =~= seq!['.', '.']);
        } else {
            if name@ == seq!['.', '.'] {
                assert(name@[0] == '.' && name@[1] == '.');
                assert(false);
            }
        }
        lemma_last_index_bounds(name@, '.');
    }
    match crate::resolve::last_index_char(name, '.') {
        Some(d) => {
            if d >= 1 && !is_dotdot {
                Some(name.substring_char(d + 1, nlen).to_owned())
            } else {
                None
            }
        },
        None => None,
    }
}

/// Whether the path names a source file (`ts`, `tsx`, `js`, `jsx`, `mjs`
/// or `cjs`).
pub fn has_source_extension(s: &str) -> (b: bool)
    ensures
        b == spec_has_source_extension(s@),
{
    match extension_of(s) {
        Some(e) => e.eq(&"ts".to_owned()) || e.eq(&"tsx".to_owned()) || e.eq(&"js".to_owned())
            || e.eq(&"jsx".to_owned()) || e.eq(&"mjs".to_owned()) || e.eq(&"cjs".to_owned()),
        None => false,
    }
}

/// Whether a path segment names a directory the scan leaves out.
pub open spec fn spec_excluded_segment(seg: Seq<char>) -> bool {
    seg == "node_modules"@ || seg == ".git"@ || seg == "dist"@ || seg == "build"@ || seg
        == "coverage"@
}

/// Whether any segment of the path, not only the leaf, names an excluded
/// directory.
pub open spec fn spec_is_excluded(s: Seq<char>) -> bool {
    exists|i: int| 0 <= i < split_path(s).len() && spec_excluded_segment(#[trigger] split_path(s)[i])
}

/// Whether any segment of the path names an excluded directory
/// (`node_modules`, `.git`, `dist`, `build`, `coverage`).
pub fn is_excluded_path(s: &str) -> (b: bool)
    ensures
        b == spec_is_excluded(s@),
{
    let segs = split_path_exec(s);
    let mut j: usize = 0;
    while j < segs.len()
        invariant
            j <= segs.len(),
            segs.deep_view() == split_path(s@),
            forall|k: int| 0 <= k < j ==> !spec_excluded_segment(split_path(s@)[k]),
        decreases segs.len() - j,
    {
        let seg = &segs[j];
        proof {
            assert(split_path(s@)[j as int] == segs@[j as int]@);
        }
        if seg.eq(&"node_modules".to_owned()) || seg.eq(&".git".to_owned()) || seg.eq(
            &"dist".to_owned(),
        ) || seg.eq(&"build".to_owned()) || seg.eq(&"coverage".to_owned()) {
            return true;
        }
        j = j + 1;
    }
    false
}

/// Whether the scan keeps this path: it has a source extension and no
/// segment of it is an excluded directory.
pub open spec fn spec_should_scan(s: Seq<char>) -> bool {
    spec_has_source_extension(s) && !spec_is_excluded(s)
}

/// Whether the scan keeps this path.
pub fn should_scan(path: &str) -> (b: bool)
    ensures
        b == spec_should_scan(path@),
{
    has_source_extension(path) && !is_excluded_path(path)
}

} // verus!
