use vstd::prelude::*;

use crate::builder::contains_path;
use crate::builder::lemma_path_index_unique;
use crate::builder::path_index;
use crate::file::File;

verus! {

/// The hover and selection state: at most one hovered file name, and a
/// set of selected file names kept as a duplicate-free list.
pub struct SelectionState {
    pub selected_files: Vec<String>,
    pub hovered_file: Option<String>,
}

impl SelectionState {
    /// No selected name repeats.
    pub open spec fn wf(self) -> bool {
        forall|i: int, j: int|
            #![trigger self.selected_files.deep_view()[i], self.selected_files.deep_view()[j]]
            0 <= i < j < self.selected_files.deep_view().len()
                ==> self.selected_files.deep_view()[i] != self.selected_files.deep_view()[j]
    }

    pub fn new() -> (s: SelectionState)
        ensures
            s.wf(),
            s.selected_files.deep_view() == Seq::<Seq<char>>::empty(),
            s.hovered_file is None,
    {
        let s = SelectionState { selected_files: Vec::new(), hovered_file: None };
        proof {
            assert(s.selected_files.deep_view() =~= Seq::<Seq<char>>::empty());
        }
        s
    }
}

/// Whether the screen point `(x, y)` lies in the box `(x1, y1, x2, y2)`,
/// edges included.
pub open spec fn box_contains(b: (i64, i64, i64, i64), x: int, y: int) -> bool {
    b.0 <= x <= b.2 && b.1 <= y <= b.3
}

/// The name of the first drawn file whose box holds the point, if any —
/// first in the stable order of the drawn list.
pub open spec fn spec_hit(
    files: Seq<(File, (i64, i64, i64, i64))>,
    x: int,
    y: int,
) -> Option<Seq<char>>
    decreases files.len(),
{
    if files.len() == 0 {
        None
    } else if box_contains(files[0].1, x, y) {
        Some(files[0].0.name@)
    } else {
        spec_hit(files.subrange(1, files.len() as int), x, y)
    }
}

/// A point outside every box hits nothing.
pub proof fn lemma_hit_none(files: Seq<(File, (i64, i64, i64, i64))>, x: int, y: int)
    requires
        forall|j: int| 0 <= j < files.len() ==> !box_contains((#[trigger] files[j]).1, x, y),
    ensures
        spec_hit(files, x, y) is None,
    decreases files.len(),
{
    if files.len() == 0 {
    } else {
        let rest = files.subrange(1, files.len() as int);
        assert(forall|j: int| 0 <= j < rest.len() ==> rest[j] == files[j + 1]);
        lemma_hit_none(rest, x, y);
    }
}

/// A point inside exactly one box hits exactly that node.
pub proof fn lemma_hit_unique(files: Seq<(File, (i64, i64, i64, i64))>, x: int, y: int, i: int)
    requires
        0 <= i < files.len(),
        box_contains(files[i].1, x, y),
        forall|j: int|
            0 <= j < files.len() && j != i ==> !box_contains((#[trigger] files[j]).1, x, y),
    ensures
        spec_hit(files, x, y) == Some(files[i].0.name@),
    decreases files.len(),
{
    if i == 0 {
    } else {
        let rest = files.subrange(1, files.len() as int);
        assert(forall|j: int| 0 <= j < rest.len() ==> rest[j] == files[j + 1]);
        lemma_hit_unique(rest, x, y, i - 1);
    }
}

/// The list with the first occurrence of `p` removed; unchanged when `p`
/// is absent.
pub open spec fn remove_path(paths: Seq<Seq<char>>, p: Seq<char>) -> Seq<Seq<char>> {
    if contains_path(paths, p) {
        paths.remove(path_index(paths, p))
    } else {
        paths
    }
}

impl SelectionState {
    /// Sets the selection to exactly the hovered file, or clears it when
    /// nothing is hovered.
    pub fn select_hovered(&mut self)
        ensures
            final(self).wf(),
            final(self).hovered_file == old(self).hovered_file,
            match old(self).hovered_file {
                Some(name) => final(self).selected_files.deep_view() == seq![name@],
                None => final(self).selected_files.deep_view() == Seq::<Seq<char>>::empty(),
            },
    {
        match &self.hovered_file {
            Some(name) => {
                let mut sel: Vec<String> = Vec::new();
                sel.push(name.clone());
                proof {
                    assert(sel.deep_view() =~= seq![old(self).hovered_file->Some_0@]);
                }
                self.selected_files = sel;
            },
            None => {
                self.selected_files = Vec::new();
                proof {
                    assert(final(self).selected_files.deep_view() =~= Seq::<Seq<char>>::empty());
                }
            },
        }
    }

    /// Toggles the hovered file in the selection: an already selected
    /// name leaves the selection, a new one joins it. Without a hovered
    /// file nothing changes.
    #[verifier::loop_isolation(false)]
    pub fn toggle_hovered(&mut self)
        requires
            old(self).wf(),
        ensures
            final(self).wf(),
            final(self).hovered_file == old(self).hovered_file,
            match old(self).hovered_file {
                Some(name) => {
                    &&& contains_path(old(self).selected_files.deep_view(), name@)
                        ==> final(self).selected_files.deep_view() == remove_path(
                        old(self).selected_files.deep_view(),
                        name@,
                    )
                    &&& !contains_path(old(self).selected_files.deep_view(), name@)
                        ==> final(self).selected_files.deep_view() == old(
                        self,
                    ).selected_files.deep_view().push(name@)
                },
                None => final(self).selected_files == old(self).selected_files,
            },
    {
        let name = match &self.hovered_file {
            Some(name) => name.clone(),
            None => {
                return ;
            },
        };
        let ghost sel0 = self.selected_files.deep_view();
        let mut j: usize = 0;
        while j < self.selected_files.len()
            invariant
                j <= self.selected_files.len(),
                *self == *old(self),
                name == old(self).hovered_file->Some_0,
                sel0 == self.selected_files.deep_view(),
                forall|k: int| 0 <= k < j ==> sel0[k] != name@,
            decreases self.selected_files.len() - j,
        {
            if self.selected_files[j].eq(&name) {
                proof {
                    assert(sel0[j as int] == self.selected_files@[j as int]@);
                    lemma_path_index_unique(sel0, name@, j as int);
                }
                self.selected_files.remove(j);
                proof {
                    assert(contains_path(sel0, name@));
                    assert(remove_path(sel0, name@) == sel0.remove(j as int));
                    assert(final(self).selected_files.deep_view() =~= sel0.remove(j as int));
                    assert forall|a: int, b: int|
                        #![trigger final(self).selected_files.deep_view()[a], final(self).selected_files.deep_view()[b]]
                        0 <= a < b < final(self).selected_files.deep_view().len() implies final(
                        self).selected_files.deep_view()[a] != final(
                        self).selected_files.deep_view()[b] by {
                        let dv = final(self).selected_files.deep_view();
                        let ia: int = if a < j { a } else { a + 1 };
                        let ib: int = if b < j { b } else { b + 1 };
                        assert(dv[a] == sel0[ia]);
                        assert(dv[b] == sel0[ib]);
                        assert(0 <= ia < ib < sel0.len());
                        assert(sel0 == old(self).selected_files.deep_view());
                        assert(old(self).selected_files.deep_view()[ia] != old(
                            self).selected_files.deep_view()[ib]);
                        assert(sel0[ia] != sel0[ib]);
                    }
                }
                return ;
            }
            proof {
                assert(sel0[j as int] == self.selected_files@[j as int]@);
            }
            j = j + 1;
        }
        self.selected_files.push(name);
        proof {
            assert(final(self).selected_files.deep_view() =~= sel0.push(
                old(self).hovered_file->Some_0@,
            ));
            assert forall|a: int, b: int|
                #![trigger final(self).selected_files.deep_view()[a], final(self).selected_files.deep_view()[b]]
                0 <= a < b < final(self).selected_files.deep_view().len() implies final(
                self).selected_files.deep_view()[a] != final(
                self).selected_files.deep_view()[b] by {
                let dv = final(self).selected_files.deep_view();
                if b < dv.len() - 1 {
                    assert(dv[a] == sel0[a] && dv[b] == sel0[b]);
                } else {
                    assert(dv[a] == sel0[a]);
                }
            }
        }
    }
}

} // verus!
