use vstd::prelude::*;
use vstd::string::StrSliceExecFns;
use vstd::string::StringExecFns;

use crate::builder::contains_path;

verus! {

// ---------------------------------------------------------------------------
// Relative specifiers.
// ---------------------------------------------------------------------------

/// A specifier is relative exactly when it starts with `.`.
pub open spec fn spec_is_relative(s: Seq<char>) -> bool {
    s.len() > 0 && s[0] == '.'
}

/// Whether `specifier` is a relative import. Only relative specifiers
/// resolve; a bare one (a package name) never does.
pub fn is_relative(specifier: &str) -> (b: bool)
    ensures
        b == spec_is_relative(specifier@),
{
    specifier.unicode_len() > 0 && specifier.get_char(0) == '.'
}

// ---------------------------------------------------------------------------
// Splitting a path at `/`, normalizing `.` and `..`, joining back.
// ---------------------------------------------------------------------------

/// The path split at `/`: one more segment than separators, so repeated,
/// leading or trailing separators give empty segments (dropped later by
/// `normalize_segments`).
pub open spec fn split_path(s: Seq<char>) -> Seq<Seq<char>>
    decreases s.len(),
{
    if s.len() == 0 {
        seq![Seq::<char>::empty()]
    } else {
        let prefix = split_path(s.drop_last());
        if s.last() == '/' {
            prefix.push(Seq::<char>::empty())
        } else {
            prefix.drop_last().push(prefix.last().push(s.last()))
        }
    }
}

pub proof fn lemma_split_path_len(s: Seq<char>)
    ensures
        split_path(s).len() >= 1,
    decreases s.len(),
{
    if s.len() == 0 {
    } else {
        lemma_split_path_len(s.drop_last());
    }
}

/// Splits at `/`.
pub fn split_path_exec(s: &str) -> (r: Vec<String>)
    ensures
        r.deep_view() == split_path(s@),
{
    let n = s.unicode_len();
    let mut segs: Vec<String> = Vec::new();
    let mut start: usize = 0;
    let mut i: usize = 0;
    proof {
        assert(s@.subrange(0, 0) =~= Seq::<char>::empty());
        assert(segs.deep_view() =~= Seq::<Seq<char>>::empty());
    }
    while i < n
        invariant
            start <= i <= n,
            n == s@.len(),
            segs.deep_view() == split_path(s@.subrange(0, i as int)).drop_last(),
            s@.subrange(start as int, i as int) == split_path(s@.subrange(0, i as int)).last(),
        decreases n - i,
    {
        let ghost t = s@.subrange(0, i as int);
        let ghost t2 = s@.subrange(0, i + 1int);
        proof {
            assert(t2.drop_last() =~= t);
            lemma_split_path_len(t);
        }
        if s.get_char(i) == '/' {
            let seg = s.substring_char(start, i).to_owned();
            proof {
                assert(split_path(t).drop_last().push(split_path(t).last()) =~= split_path(t));
                assert(segs.deep_view().push(seg@) =~= segs.deep_view().push(seg@));
            }
            segs.push(seg);
            proof {
                assert(segs.deep_view() =~= split_path(t2).drop_last());
                assert(s@.subrange(i + 1int, i + 1int) =~= Seq::<char>::empty());
            }
            start = i + 1;
        } else {
            proof {
                assert(split_path(t2) == split_path(t).drop_last().push(
                    split_path(t).last().push(s@[i as int]),
                ));
                assert(split_path(t2).drop_last() =~= split_path(t).drop_last());
                assert(s@.subrange(start as int, i + 1int) =~= s@.subrange(
                    start as int,
                    i as int,
                ).push(s@[i as int]));
            }
        }
        i = i + 1;
    }
    let last = s.substring_char(start, n).to_owned();
    segs.push(last);
    proof {
        assert(s@.subrange(0, n as int) =~= s@);
        lemma_split_path_len(s@);
        assert(segs.deep_view() =~= split_path(s@).drop_last().push(split_path(s@).last()));
        assert(split_path(s@).drop_last().push(split_path(s@).last()) =~= split_path(s@));
    }
    segs
}

/// Left-to-right normalization: an empty or `.` segment is dropped, `..`
/// removes the segment before it when one remains, anything else is kept.
pub open spec fn normalize_segments(segs: Seq<Seq<char>>) -> Seq<Seq<char>>
    decreases segs.len(),
{
    if segs.len() == 0 {
        Seq::<Seq<char>>::empty()
    } else {
        let prefix = normalize_segments(segs.drop_last());
        let last = segs.last();
        if last.len() == 0 || last == seq!['.'] {
            prefix
        } else if last == seq!['.', '.'] {
            if prefix.len() > 0 {
                prefix.drop_last()
            } else {
                prefix
            }
        } else {
            prefix.push(last)
        }
    }
}

/// Applies `normalize_segments`.
pub fn normalize_segments_exec(segs: &Vec<String>) -> (r: Vec<String>)
    ensures
        r.deep_view() == normalize_segments(segs.deep_view()),
{
    let mut out: Vec<String> = Vec::new();
    let mut k: usize = 0;
    proof {
        assert(out.deep_view() =~= Seq::<Seq<char>>::empty());
        assert(segs.deep_view().subrange(0, 0) =~= Seq::<Seq<char>>::empty());
    }
    while k < segs.len()
        invariant
            k <= segs.len(),
            out.deep_view() == normalize_segments(segs.deep_view().subrange(0, k as int)),
        decreases segs.len() - k,
    {
        let ghost t = segs.deep_view().subrange(0, k as int);
        let ghost t2 = segs.deep_view().subrange(0, k + 1int);
        proof {
            assert(t2.drop_last() =~= t);
            assert(t2.last() == segs.deep_view()[k as int]);
            assert(segs.deep_view()[k as int] == segs@[k as int]@);
        }
        let seg = &segs[k];
        let len = seg.as_str().unicode_len();
        let is_empty = len == 0;
        let is_dot = len == 1 && seg.as_str().get_char(0) == '.';
        let is_dotdot = len == 2 && seg.as_str().get_char(0) == '.' && seg.as_str().get_char(1)
            == '.';
        if is_empty || is_dot {
            proof {
                if is_dot {
                    assert(seg@ =~= seq!['.']);
                }
            }
        } else if is_dotdot {
            proof {
                assert(seg@ =~= seq!['.', '.']);
                assert(seg@ != seq!['.']);
            }
            if out.len() > 0 {
                out.pop();
                proof {
                    assert(out.deep_view() =~= normalize_segments(t).drop_last());
                }
            }
        } else {
            proof {
                assert(seg@ != seq!['.']);
                assert(seg@ != seq!['.', '.']);
            }
            out.push(seg.clone());
            proof {
                assert(out.deep_view() =~= normalize_segments(t).push(seg@));
            }
        }
        k = k + 1;
    }
    proof {
        assert(segs.deep_view().subrange(0, segs@.len() as int) =~= segs.deep_view());
    }
    out
}

/// The segments joined with `/` between them.
pub open spec fn join_segments(segs: Seq<Seq<char>>) -> Seq<char>
    decreases segs.len(),
{
    if segs.len() == 0 {
        Seq::<char>::empty()
    } else if segs.len() == 1 {
        segs[0]
    } else {
        join_segments(segs.drop_last()) + seq!['/'] + segs.last()
    }
}

/// Applies `join_segments`.
pub fn join_segments_exec(segs: &Vec<String>) -> (r: String)
    ensures
        r@ == join_segments(segs.deep_view()),
{
    let mut out = String::new();
    let mut k: usize = 0;
    proof {
        assert(segs.deep_view().subrange(0, 0) =~= Seq::<Seq<char>>::empty());
    }
    while k < segs.len()
        invariant
            k <= segs.len(),
            out@ == join_segments(segs.deep_view().subrange(0, k as int)),
        decreases segs.len() - k,
    {
        let ghost t = segs.deep_view().subrange(0, k as int);
        let ghost t2 = segs.deep_view().subrange(0, k + 1int);
        proof {
            reveal_strlit("/");
            assert(t2.drop_last() =~= t);
            assert(t2.last() == segs@[k as int]@);
        }
        if k > 0 {
            out.append("/");
        }
        out.append(segs[k].as_str());
        proof {
            if k == 0 {
                assert(out@ =~= t2[0]);
            } else {
                assert(out@ =~= join_segments(t) + seq!['/'] + t2.last());
            }
        }
        k = k + 1;
    }
    proof {
        assert(segs.deep_view().subrange(0, segs@.len() as int) =~= segs.deep_view());
    }
    out
}

// ---------------------------------------------------------------------------
// Lexical resolution and joining.
// ---------------------------------------------------------------------------

/// Purely lexical resolution of `.` and `..`: split at `/`, drop `.` and
/// empty segments, let `..` remove the segment before it, join back, and
/// keep one leading `/` when the input was absolute.
pub open spec fn spec_lexical(s: Seq<char>) -> Seq<char> {
    let norm = normalize_segments(split_path(s));
    if s.len() > 0 && s[0] == '/' {
        seq!['/'] + join_segments(norm)
    } else {
        join_segments(norm)
    }
}

/// Resolves `.` and `..` in `path` without touching the filesystem.
pub fn lexical_resolve(path: &str) -> (r: String)
    ensures
        r@ == spec_lexical(path@),
{
    let segs = split_path_exec(path);
    let norm = normalize_segments_exec(&segs);
    let joined = join_segments_exec(&norm);
    if path.unicode_len() > 0 && path.get_char(0) == '/' {
        let mut out = "/".to_owned();
        out.append(joined.as_str());
        proof {
            reveal_strlit("/");
            assert(out@ =~= seq!['/'] + joined@);
        }
        out
    } else {
        joined
    }
}

/// `dir` and `rel` joined with a single `/`; just `rel` when `dir` is
/// empty.
pub open spec fn spec_join(dir: Seq<char>, rel: Seq<char>) -> Seq<char> {
    if dir.len() == 0 {
        rel
    } else {
        dir + seq!['/'] + rel
    }
}

/// Joins a relative specifier onto the importing file's directory.
pub fn join_relative(dir: &str, rel: &str) -> (r: String)
    ensures
        r@ == spec_join(dir@, rel@),
{
    if dir.unicode_len() == 0 {
        rel.to_owned()
    } else {
        let mut out = dir.to_owned();
        out.append("/");
        out.append(rel);
        proof {
            reveal_strlit("/");
            assert(out@ =~= dir@ + seq!['/'] + rel@);
        }
        out
    }
}

// ---------------------------------------------------------------------------
// Extension replacement and the probe candidates.
// ---------------------------------------------------------------------------

/// Index of the last occurrence of `c` in `s`, or `-1`.
pub open spec fn last_index_of(s: Seq<char>, c: char) -> int
    decreases s.len(),
{
    if s.len() == 0 {
        -1
    } else if s.last() == c {
        s.len() - 1
    } else {
        last_index_of(s.drop_last(), c)
    }
}

pub proof fn lemma_last_index_bounds(s: Seq<char>, c: char)
    ensures
        -1 <= last_index_of(s, c) < s.len(),
    decreases s.len(),
{
    if s.len() == 0 {
    } else if s.last() == c {
    } else {
        lemma_last_index_bounds(s.drop_last(), c);
    }
}

/// Index of the last occurrence of `c` in `s`, if any.
pub fn last_index_char(s: &str, c: char) -> (r: Option<usize>)
    ensures
        match r {
            Some(i) => last_index_of(s@, c) == i && i < s@.len(),
            None => last_index_of(s@, c) == -1,
        },
{
    let n = s.unicode_len();
    let mut j: usize = n;
    proof {
        assert(s@.subrange(0, n as int) =~= s@);
    }
    while j > 0
        invariant
            j <= n,
            n == s@.len(),
            last_index_of(s@, c) == last_index_of(s@.subrange(0, j as int), c),
        decreases j,
    {
        let ghost t = s@.subrange(0, j as int);
        proof {
            assert(t.drop_last() =~= s@.subrange(0, j - 1int));
            assert(t.last() == s@[j - 1int]);
        }
        if s.get_char(j - 1) == c {
            return Some(j - 1);
        }
        j = j - 1;
    }
    None
}

/// The path with any extension of its last segment removed: when the last
/// segment holds a `.` past its first character and is not `..`, the
/// suffix from the last `.` on is cut, else the path stays whole.
pub open spec fn spec_strip_ext(s: Seq<char>) -> Seq<char> {
    let sl = last_index_of(s, '/');
    let name = s.subrange(sl + 1, s.len() as int);
    let d = last_index_of(name, '.');
    if d >= 1 && name != seq!['.', '.'] {
        s.subrange(0, sl + 1 + d)
    } else {
        s
    }
}

/// The path with the extension of its last segment replaced by (or, when
/// there is none, extended with) `.ext`.
pub open spec fn spec_with_ext(s: Seq<char>, ext: Seq<char>) -> Seq<char> {
    spec_strip_ext(s) + seq!['.'] + ext
}

/// Replaces the extension of the path's last segment by `.ext`.
pub fn with_extension(s: &str, ext: &str) -> (r: String)
    ensures
        r@ == spec_with_ext(s@, ext@),
{
    let n = s.unicode_len();
    let name_start: usize = match last_index_char(s, '/') {
        Some(i) => i + 1,
        None => 0,
    };
    proof {
        lemma_last_index_bounds(s@, '/');
        assert(name_start == last_index_of(s@, '/') + 1);
    }
    let name = s.substring_char(name_start, n);
    let nlen = name.unicode_len();
    let is_dotdot = nlen == 2 && name.get_char(0) == '.' && name.get_char(1) == '.';
    proof {
        if is_dotdot {
            assert(name@ =~= seq!['.', '.']);
        } else {
            if name@ == seq!['.', '.'] {
                assert(name@[0] == '.' && name@[1] == '.');
                assert(false);
            }
        }
        lemma_last_index_bounds(name@, '.');
    }
    let cut: usize = match last_index_char(name, '.') {
        Some(d) => {
            if d >= 1 && !is_dotdot {
                name_start + d
            } else {
                n
            }
        },
        None => n,
    };
    let mut out = s.substring_char(0, cut).to_owned();
    out.append(".");
    out.append(ext);
    proof {
        reveal_strlit(".");
        if cut == n {
            assert(s@.subrange(0, n as int) =~= s@);
        }
        assert(out@ =~= spec_strip_ext(s@) + seq!['.'] + ext@);
    }
    out
}

/// The eight probe candidates for a resolved base path, in the exact
/// order the design fixes: the base with its extension replaced by `.ts`,
/// `.tsx`, `.js`, `.jsx`, then the base's `index.ts`, `index.tsx`,
/// `index.js`, `index.jsx`.
pub open spec fn spec_candidates(base: Seq<char>) -> Seq<Seq<char>> {
    seq![
        spec_with_ext(base, "ts"@),
        spec_with_ext(base, "tsx"@),
        spec_with_ext(base, "js"@),
        spec_with_ext(base, "jsx"@),
        base + "/index.ts"@,
        base + "/index.tsx"@,
        base + "/index.js"@,
        base + "/index.jsx"@,
    ]
}

/// Builds `spec_candidates(base)`.
pub fn candidate_paths(base: &str) -> (r: Vec<String>)
    ensures
        r.deep_view() == spec_candidates(base@),
{
    let mut v: Vec<String> = Vec::new();
    v.push(with_extension(base, "ts"));
    v.push(with_extension(base, "tsx"));
    v.push(with_extension(base, "js"));
    v.push(with_extension(base, "jsx"));
    let mut a = base.to_owned();
    a.append("/index.ts");
    v.push(a);
    let mut b = base.to_owned();
    b.append("/index.tsx");
    v.push(b);
    let mut c = base.to_owned();
    c.append("/index.js");
    v.push(c);
    let mut d = base.to_owned();
    d.append("/index.jsx");
    v.push(d);
    proof {
        assert(v.deep_view() =~= spec_candidates(base@));
    }
    v
}

// ---------------------------------------------------------------------------
// Resolution against an explicit set of existing files.
// ---------------------------------------------------------------------------

/// The first candidate that is an existing path, if any.
pub open spec fn spec_first_existing(
    cands: Seq<Seq<char>>,
    existing: Seq<Seq<char>>,
) -> Option<Seq<char>>
    decreases cands.len(),
{
    if cands.len() == 0 {
        None
    } else if contains_path(existing, cands[0]) {
        Some(cands[0])
    } else {
        spec_first_existing(cands.subrange(1, cands.len() as int), existing)
    }
}

/// Whether `p` is one of the paths of `existing`.
pub fn path_exists_in(existing: &Vec<String>, p: &String) -> (b: bool)
    ensures
        b == contains_path(existing.deep_view(), p@),
{
    let mut j: usize = 0;
    while j < existing.len()
        invariant
            j <= existing.len(),
            forall|k: int| 0 <= k < j ==> existing.deep_view()[k] != p@,
        decreases existing.len() - j,
    {
        if existing[j].eq(p) {
            proof {
                assert(existing.deep_view()[j as int] == existing@[j as int]@);
            }
            return true;
        }
        proof {
            assert(existing.deep_view()[j as int] == existing@[j as int]@);
        }
        j = j + 1;
    }
    false
}

/// The first of `cands` that is a path of `existing`, if any.
pub fn first_existing(cands: &Vec<String>, existing: &Vec<String>) -> (r: Option<String>)
    ensures
        match r {
            Some(p) => spec_first_existing(cands.deep_view(), existing.deep_view()) == Some(p@),
            None => spec_first_existing(cands.deep_view(), existing.deep_view()) is None,
        },
{
    let mut k: usize = 0;
    proof {
        assert(cands.deep_view().subrange(0, cands.deep_view().len() as int)
            =~= cands.deep_view());
    }
    while k < cands.len()
        invariant
            k <= cands.len(),
            spec_first_existing(cands.deep_view(), existing.deep_view())
                == spec_first_existing(
                cands.deep_view().subrange(k as int, cands.deep_view().len() as int),
                existing.deep_view(),
            ),
        decreases cands.len() - k,
    {
        let ghost suffix = cands.deep_view().subrange(k as int, cands.deep_view().len() as int);
        proof {
            assert(suffix[0] == cands.deep_view()[k as int]);
            assert(suffix.subrange(1, suffix.len() as int) =~= cands.deep_view().subrange(
                k + 1int,
                cands.deep_view().len() as int,
            ));
            assert(cands.deep_view()[k as int] == cands@[k as int]@);
        }
        if path_exists_in(existing, &cands[k]) {
            return Some(cands[k].clone());
        }
        k = k + 1;
    }
    proof {
        assert(cands.deep_view().subrange(
            cands@.len() as int,
            cands.deep_view().len() as int,
        ) =~= Seq::<Seq<char>>::empty());
    }
    None
}

/// What resolving `specifier` from the directory `dir` yields when the
/// existing files are exactly `existing`: nothing for a bare specifier,
/// else the first of the eight probe candidates of the lexically resolved
/// joined path that exists.
pub open spec fn spec_resolve(
    specifier: Seq<char>,
    dir: Seq<char>,
    existing: Seq<Seq<char>>,
) -> Option<Seq<char>> {
    if !spec_is_relative(specifier) {
        None
    } else {
        spec_first_existing(
            spec_candidates(spec_lexical(spec_join(dir, specifier))),
            existing,
        )
    }
}

/// A bare specifier (one that does not start with `.`) never resolves,
/// whatever files exist.
pub proof fn lemma_bare_never_resolves(
    specifier: Seq<char>,
    dir: Seq<char>,
    existing: Seq<Seq<char>>,
)
    requires
        !spec_is_relative(specifier),
    ensures
        spec_resolve(specifier, dir, existing) is None,
{
}

/// Resolves `specifier` from the directory `dir`, taking the paths of
/// `existing` as the only files that exist. This is the whole resolution
/// algorithm with an explicit existence oracle in place of the
/// filesystem; a caller that probes a real filesystem composes
/// `is_relative`, `join_relative`, `lexical_resolve` and
/// `candidate_paths` instead.
pub fn resolve_against(specifier: &str, dir: &str, existing: &Vec<String>) -> (r: Option<String>)
    ensures
        match r {
            Some(p) => spec_resolve(specifier@, dir@, existing.deep_view()) == Some(p@),
            None => spec_resolve(specifier@, dir@, existing.deep_view()) is None,
        },
{
    if !is_relative(specifier) {
        return None;
    }
    let joined = join_relative(dir, specifier);
    let base = lexical_resolve(joined.as_str());
    let cands = candidate_paths(base.as_str());
    first_existing(&cands, existing)
}

} // verus!
