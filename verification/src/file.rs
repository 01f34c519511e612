use vstd::prelude::*;

verus! {

/// A source file of the workspace. `name` holds its canonical absolute
/// path, which is the file's identity throughout the crate.
#[derive(Debug, Clone)]
pub struct File {
    pub name: String,
}

impl File {
    pub fn new(name: String) -> (f: File)
        ensures
            f.name == name,
    {
        File { name }
    }
}

} // verus!
