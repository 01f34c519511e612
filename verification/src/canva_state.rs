use vstd::prelude::*;

use crate::file::File;

verus! {

/// What the last draw put on screen: per node, the file and its
/// hit-test box `(x1, y1, x2, y2)` in screen micro-units. Rebuilt by
/// every draw; read by hit-testing until the next one.
pub struct CanvaState {
    pub files: Vec<(File, (i64, i64, i64, i64))>,
}

impl CanvaState {
    pub fn new() -> (s: CanvaState)
        ensures
            s.files@ == Seq::<(File, (i64, i64, i64, i64))>::empty(),
    {
        CanvaState { files: Vec::new() }
    }

    /// Replaces the drawn boxes wholesale.
    pub fn set_files(&mut self, files: Vec<(File, (i64, i64, i64, i64))>)
        ensures
            final(self).files == files,
    {
        self.files = files;
    }
}

} // verus!
