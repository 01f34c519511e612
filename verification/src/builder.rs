use vstd::prelude::*;

use crate::file::File;
use crate::graph::WorkspaceGraph;

verus! {

/// Whether some entry of `paths` equals `p`.
pub open spec fn contains_path(paths: Seq<Seq<char>>, p: Seq<char>) -> bool {
    exists|j: int| 0 <= j < paths.len() && paths[j] == p
}

/// Index of the first entry of `paths` equal to `p`; `paths.len()` when
/// there is none.
pub open spec fn path_index(paths: Seq<Seq<char>>, p: Seq<char>) -> int
    decreases paths.len(),
{
    if paths.len() == 0 {
        0
    } else if paths[0] == p {
        0
    } else {
        1 + path_index(paths.subrange(1, paths.len() as int), p)
    }
}

/// `path_index` is the first match: it is in range and matches exactly
/// when `paths` contains `p`, and nothing before it matches.
pub proof fn lemma_path_index(paths: Seq<Seq<char>>, p: Seq<char>)
    ensures
        contains_path(paths, p) ==> {
            let i = path_index(paths, p);
            &&& 0 <= i < paths.len()
            &&& paths[i] == p
            &&& forall|k: int| 0 <= k < i ==> paths[k] != p
        },
        !contains_path(paths, p) ==> path_index(paths, p) == paths.len(),
    decreases paths.len(),
{
    if paths.len() == 0 {
    } else if paths[0] == p {
    } else {
        let rest = paths.subrange(1, paths.len() as int);
        lemma_path_index(rest, p);
        assert(forall|j: int| 0 <= j < rest.len() ==> rest[j] == paths[j + 1]);
        if contains_path(paths, p) {
            let j = choose|j: int| 0 <= j < paths.len() && paths[j] == p;
            assert(rest[j - 1] == p);
            assert(contains_path(rest, p));
            let i = path_index(paths, p);
            assert(i == 1 + path_index(rest, p));
            assert(paths[i] == rest[i - 1]);
            assert forall|k: int| 0 <= k < i implies paths[k] != p by {
                if k > 0 {
                    assert(rest[k - 1] != p);
                    assert(paths[k] == rest[k - 1]);
                }
            }
        } else {
            if contains_path(rest, p) {
                let j = choose|j: int| 0 <= j < rest.len() && rest[j] == p;
                assert(paths[j + 1] == p);
            }
        }
    }
}

/// A match at `i` with no match before it pins `path_index` to `i`.
pub proof fn lemma_path_index_unique(paths: Seq<Seq<char>>, p: Seq<char>, i: int)
    requires
        0 <= i < paths.len(),
        paths[i] == p,
        forall|k: int| 0 <= k < i ==> paths[k] != p,
    ensures
        path_index(paths, p) == i,
{
    lemma_path_index(paths, p);
    let pi = path_index(paths, p);
    if pi < i {
        assert(paths[pi] != p);
    }
    if pi > i {
        assert(paths[i] != p);
    }
}

/// The canonical paths `files`, in order, with every repetition of an
/// earlier path dropped.
pub open spec fn dedup_paths(files: Seq<Seq<char>>) -> Seq<Seq<char>>
    decreases files.len(),
{
    if files.len() == 0 {
        Seq::<Seq<char>>::empty()
    } else {
        let prefix = dedup_paths(files.drop_last());
        if contains_path(prefix, files.last()) {
            prefix
        } else {
            prefix.push(files.last())
        }
    }
}

/// The edges that importing `imports` adds over the node list `paths`:
/// one edge per pair whose two endpoints are both known paths, endpoints
/// taken at their first index.
pub open spec fn edges_of_imports(
    paths: Seq<Seq<char>>,
    imports: Seq<(Seq<char>, Seq<char>)>,
) -> Seq<(usize, usize)>
    decreases imports.len(),
{
    if imports.len() == 0 {
        Seq::<(usize, usize)>::empty()
    } else {
        let prefix = edges_of_imports(paths, imports.drop_last());
        let (f, t) = imports.last();
        if contains_path(paths, f) && contains_path(paths, t) {
            prefix.push((path_index(paths, f) as usize, path_index(paths, t) as usize))
        } else {
            prefix
        }
    }
}

/// Builds a `WorkspaceGraph` in the two passes the design asks for:
/// first every discovered file becomes a node, one node per canonical
/// path however often the path recurs; then every resolved import whose
/// target is a known path becomes an edge.
pub struct GraphBuilder {
    pub graph: WorkspaceGraph,
    pub paths: Vec<String>,
}

impl GraphBuilder {
    /// The canonical path of each node, in node-index order.
    pub open spec fn path_view(self) -> Seq<Seq<char>> {
        self.paths.deep_view()
    }

    /// Well-formed: the graph is, the path list mirrors the node list,
    /// and no canonical path repeats.
    pub open spec fn wf(self) -> bool {
        &&& self.graph.wf()
        &&& self.paths.len() == self.graph.nodes().len()
        &&& forall|i: int|
            0 <= i < self.paths.len() ==> (#[trigger] self.graph.nodes()[i].name)@
                == self.path_view()[i]
        &&& forall|i: int, j: int|
            0 <= i < j < self.paths.len() ==> self.path_view()[i] != self.path_view()[j]
    }

    pub fn new() -> (b: GraphBuilder)
        ensures
            b.wf(),
            b.path_view() == Seq::<Seq<char>>::empty(),
            b.graph.edges() == Seq::<(usize, usize)>::empty(),
    {
        GraphBuilder { graph: WorkspaceGraph::new(), paths: Vec::new() }
    }

    /// Index of the node whose canonical path is `path`, if one exists.
    pub fn find_node(&self, path: &String) -> (r: Option<usize>)
        ensures
            match r {
                Some(i) => contains_path(self.path_view(), path@) && i == path_index(
                    self.path_view(),
                    path@,
                ),
                None => !contains_path(self.path_view(), path@),
            },
    {
        let mut j: usize = 0;
        while j < self.paths.len()
            invariant
                j <= self.paths.len(),
                forall|k: int| 0 <= k < j ==> self.path_view()[k] != path@,
            decreases self.paths.len() - j,
        {
            if self.paths[j].eq(path) {
                proof {
                    assert(self.path_view()[j as int] == self.paths@[j as int]@);
                    lemma_path_index_unique(self.path_view(), path@, j as int);
                }
                return Some(j);
            }
            proof {
                assert(self.path_view()[j as int] == self.paths@[j as int]@);
            }
            j = j + 1;
        }
        None
    }

    /// First pass, one file: adds a node for the canonical path `path`
    /// unless one exists, and returns the node's index either way.
    pub fn insert_file(&mut self, path: String) -> (i: usize)
        requires
            old(self).wf(),
            old(self).paths.len() < 0xFFFF_FFFF,
        ensures
            final(self).wf(),
            final(self).graph.edges() == old(self).graph.edges(),
            i < final(self).path_view().len(),
            final(self).path_view()[i as int] == path@,
            i == path_index(final(self).path_view(), path@),
            contains_path(old(self).path_view(), path@) ==> *final(self) == *old(self),
            !contains_path(old(self).path_view(), path@) ==> {
                &&& final(self).path_view() == old(self).path_view().push(path@)
                &&& final(self).graph.nodes() == old(self).graph.nodes().push(
                    (File { name: path }),
                )
            },
    {
        let found = self.find_node(&path);
        match found {
            Some(i) => {
                proof {
                    lemma_path_index(self.path_view(), path@);
                }
                i
            },
            None => {
                let i = self.graph.add_file(File::new(path.clone()));
                self.paths.push(path);
                proof {
                    assert(final(self).path_view() =~= old(self).path_view().push(path@));
                    assert forall|k: int| 0 <= k < old(self).path_view().len() implies #[trigger]
                    final(self).path_view()[k] != path@ by {
                        assert(final(self).path_view()[k] == old(self).path_view()[k]);
                    }
                    lemma_path_index_unique(final(self).path_view(), path@, i as int);
                }
                i
            },
        }
    }

    /// Second pass, one resolved import: adds an edge from node `from` to
    /// the node whose canonical path is `target`, or does nothing when no
    /// node has that path.
    pub fn link(&mut self, from: usize, target: &String)
        requires
            old(self).wf(),
            from < old(self).graph.nodes().len(),
            old(self).graph.edges().len() < 0xFFFF_FFFF,
        ensures
            final(self).wf(),
            final(self).path_view() == old(self).path_view(),
            final(self).graph.nodes() == old(self).graph.nodes(),
            contains_path(old(self).path_view(), target@) ==> final(self).graph.edges() == old(
                self,
            ).graph.edges().push(
                (from, path_index(old(self).path_view(), target@) as usize),
            ),
            !contains_path(old(self).path_view(), target@) ==> final(self).graph.edges() == old(
                self,
            ).graph.edges(),
    {
        let found = self.find_node(target);
        match found {
            Some(t) => {
                proof {
                    lemma_path_index(self.path_view(), target@);
                }
                self.graph.add_import(from, t);
            },
            None => {},
        }
    }

    /// Both passes at once over in-memory lists: every path of `files`
    /// becomes one node, one node per canonical path however often it
    /// recurs, and every `(importer, target)` pair of `imports` whose two
    /// paths are both known becomes one edge.
    pub fn build_graph(files: &Vec<String>, imports: &Vec<(String, String)>) -> (b: GraphBuilder)
        requires
            files@.len() < 0xFFFF_FFFF,
            imports@.len() < 0xFFFF_FFFF,
        ensures
            b.wf(),
            b.path_view() == dedup_paths(files.deep_view()),
            b.graph.edges() == edges_of_imports(b.path_view(), imports.deep_view()),
    {
        let mut b = GraphBuilder::new();
        proof {
            assert(b.paths@.len() == b.path_view().len());
            assert(dedup_paths(files.deep_view().subrange(0, 0)) =~= Seq::<Seq<char>>::empty());
        }
        let mut k: usize = 0;
        while k < files.len()
            invariant
                k <= files.len(),
                files@.len() < 0xFFFF_FFFF,
                b.wf(),
                b.paths.len() <= k,
                b.path_view() == dedup_paths(files.deep_view().subrange(0, k as int)),
                b.graph.edges() == Seq::<(usize, usize)>::empty(),
            decreases files.len() - k,
        {
            proof {
                let prefix = files.deep_view().subrange(0, k as int);
                let next = files.deep_view().subrange(0, k + 1int);
                assert(next.drop_last() =~= prefix);
                assert(next.last() == files.deep_view()[k as int]);
                assert(files.deep_view()[k as int] == files@[k as int]@);
            }
            let path = files[k].clone();
            b.insert_file(path);
            k = k + 1;
        }
        proof {
            assert(files.deep_view().subrange(0, files@.len() as int) =~= files.deep_view());
        }
        let mut k: usize = 0;
        while k < imports.len()
            invariant
                k <= imports.len(),
                imports@.len() < 0xFFFF_FFFF,
                b.wf(),
                b.graph.edges().len() <= k,
                b.path_view() == dedup_paths(files.deep_view()),
                b.graph.edges() == edges_of_imports(
                    b.path_view(),
                    imports.deep_view().subrange(0, k as int),
                ),
            decreases imports.len() - k,
        {
            proof {
                let prefix = imports.deep_view().subrange(0, k as int);
                let next = imports.deep_view().subrange(0, k + 1int);
                assert(next.drop_last() =~= prefix);
                assert(next.last() == imports.deep_view()[k as int]);
                assert(imports.deep_view()[k as int] == (imports@[k as int].0@, imports@[
                    k as int].1@));
            }
            let from = &imports[k].0;
            let target = &imports[k].1;
            let found = b.find_node(from);
            match found {
                Some(f) => {
                    proof {
                        lemma_path_index(b.path_view(), from@);
                    }
                    b.link(f, target);
                },
                None => {},
            }
            k = k + 1;
        }
        proof {
            assert(imports.deep_view().subrange(0, imports@.len() as int) =~= imports.deep_view());
        }
        b
    }
}

} // verus!
