//! A minimal settings reader with fixed defaults.
use vstd::prelude::*;

verus! {

/// The texts of a sequence of string slices.
pub open spec fn path_texts(ps: Seq<&str>) -> Seq<Seq<char>> {
    ps.map_values(|p: &str| p@)
}

/// Settings with their defaults: how much history to keep, where the music
/// library lies.
pub struct Reader<'r> {
    max_history: i32,
    library_paths: Vec<&'r str>,
}

impl<'r> Reader<'r> {
    pub closed spec fn spec_history_len(&self) -> i32 {
        self.max_history
    }

    /// The texts of the library paths.
    pub closed spec fn spec_library_paths(&self) -> Seq<Seq<char>> {
        path_texts(self.library_paths@)
    }

    pub fn new() -> (r: Reader<'r>)
        ensures
            r.spec_history_len() == 50,
            r.spec_library_paths() == seq!["~/Music"@],
    {
        let r = Reader { max_history: 50, library_paths: vec!["~/Music"] };
        assert(r.spec_library_paths() =~= seq!["~/Music"@]);
        r
    }

    pub fn history_len(&self) -> (r: i32)
        ensures
            r == self.spec_history_len(),
    {
        self.max_history
    }

    pub fn library_paths(&self) -> (r: Vec<&str>)
        ensures
            path_texts(r@) == self.spec_library_paths(),
    {
        let mut paths: Vec<&str> = Vec::new();
        let mut i: usize = 0;
        while i < self.library_paths.len()
            invariant
                0 <= i <= self.library_paths@.len(),
                paths@.len() == i,
                path_texts(paths@) == self.spec_library_paths().take(i as int),
            decreases self.library_paths@.len() - i,
        {
            let ghost before = paths@;
            let path = self.library_paths[i];
            paths.push(path);
            assert(paths@ == before.push(path));
            assert forall|j: int| 0 <= j < i + 1 implies #[trigger] path_texts(paths@)[j]
                == self.spec_library_paths().take(i + 1)[j] by {
                if j < i {
                    assert(path_texts(before)[j] == self.spec_library_paths().take(i as int)[j]);
                }
            }
            assert(path_texts(paths@) =~= self.spec_library_paths().take(i + 1));
            i = i + 1;
        }
        assert(self.spec_library_paths().take(i as int) =~= self.spec_library_paths());
        paths
    }

    /// Reading marks the history as unbounded; the library paths stay.
    pub fn read(&mut self)
        ensures
            final(self).spec_history_len() == -1,
            final(self).spec_library_paths() == old(self).spec_library_paths(),
    {
        self.max_history = -1;
    }
}

} // verus!
