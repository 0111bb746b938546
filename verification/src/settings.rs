//! The player's settings, and the bookkeeping of reading them from
//! configuration files that may name further files.
use vstd::prelude::*;
use itertools::Itertools;
use crate::parse::Error;
use crate::text::{int_to_text, int_text, push_text, texts, lemma_texts_push};

verus! {

/// `s` with every item after its first occurrence left out.
pub open spec fn first_occurrences(s: Seq<Seq<char>>) -> Seq<Seq<char>>
    decreases s.len(),
{
    if s.len() == 0 {
        Seq::empty()
    } else if s.drop_last().contains(s.last()) {
        first_occurrences(s.drop_last())
    } else {
        first_occurrences(s.drop_last()).push(s.last())
    }
}

/// `Itertools::unique` of the itertools crate, collected: the paths with
/// each one kept only where it first occurs, in their order. Trusted: the
/// crate documents that `unique` filters out elements already produced
/// once, and its source yields the first occurrence of each.
#[verifier::external_body]
fn unique_paths(paths: Vec<String>) -> (r: Vec<String>)
    ensures
        texts(r@) == first_occurrences(texts(paths@)),
{
    paths.into_iter().unique().collect()
}

/// The settings that are whole numbers and texts.
#[derive(Debug)]
pub struct Settings {
    max_history: i32,
    library_paths: Vec<String>,
    top_songs_len: i32,
    top_albums_len: i32,
    top_artists_len: i32,
}

impl Settings {
    pub closed spec fn spec_history_len(&self) -> i32 {
        self.max_history
    }

    pub closed spec fn spec_library_paths(&self) -> Seq<Seq<char>> {
        texts(self.library_paths@)
    }

    pub closed spec fn spec_top_songs_len(&self) -> i32 {
        self.top_songs_len
    }

    pub closed spec fn spec_top_albums_len(&self) -> i32 {
        self.top_albums_len
    }

    pub closed spec fn spec_top_artists_len(&self) -> i32 {
        self.top_artists_len
    }

    pub fn new() -> (r: Settings)
        ensures
            r.spec_history_len() == 50,
            r.spec_library_paths() == seq!["~/Music"@],
            r.spec_top_songs_len() == 100,
            r.spec_top_albums_len() == 50,
            r.spec_top_artists_len() == 25,
    {
        let mut library_paths: Vec<String> = Vec::new();
        library_paths.push(String::from_str("~/Music"));
        let r = Settings {
            max_history: 50,
            library_paths,
            top_songs_len: 100,
            top_albums_len: 50,
            top_artists_len: 25,
        };
        assert(r.spec_library_paths() =~= seq!["~/Music"@]);
        r
    }

    /// Begins reading the configuration from `optional_path`, or from
    /// `./Longhorn.conf`: the library paths are forgotten, to be read anew.
    pub fn begin_read_config(&mut self, optional_path: Option<&str>) -> (r: ConfigRead)
        ensures
            final(self).spec_library_paths() == Seq::<Seq<char>>::empty(),
            final(self).spec_history_len() == old(self).spec_history_len(),
            final(self).spec_top_songs_len() == old(self).spec_top_songs_len(),
            final(self).spec_top_albums_len() == old(self).spec_top_albums_len(),
            final(self).spec_top_artists_len() == old(self).spec_top_artists_len(),
            r.pending() == seq![
                match optional_path {
                    Some(path) => path@,
                    None => "./Longhorn.conf"@,
                },
            ],
            r.errors() == Seq::<Seq<char>>::empty(),
    {
        self.library_paths = Vec::new();
        let mut file_path_stack: Vec<String> = Vec::new();
        if let Some(path) = optional_path {
            file_path_stack.push(String::from_str(path));
        } else {
            file_path_stack.push(String::from_str("./Longhorn.conf"));
        }
        assert(texts(self.library_paths@) =~= Seq::<Seq<char>>::empty());
        let r = ConfigRead { file_path_stack, config_errors: Vec::new() };
        assert(r.pending() =~= seq![
            match optional_path {
                Some(path) => path@,
                None => "./Longhorn.conf"@,
            },
        ]);
        assert(r.errors() =~= Seq::<Seq<char>>::empty());
        r
    }

    pub fn history_len(&self) -> (r: i32)
        ensures
            r == self.spec_history_len(),
    {
        self.max_history
    }

    pub fn library_paths(&self) -> (r: Vec<String>)
        ensures
            texts(r@) == self.spec_library_paths(),
    {
        let r = self.library_paths.clone();
        assert(texts(r@) =~= self.spec_library_paths());
        r
    }

    pub fn top_songs_len(&self) -> (r: i32)
        ensures
            r == self.spec_top_songs_len(),
    {
        self.top_songs_len
    }

    pub fn top_albums_len(&self) -> (r: i32)
        ensures
            r == self.spec_top_albums_len(),
    {
        self.top_albums_len
    }

    pub fn top_artists_len(&self) -> (r: i32)
        ensures
            r == self.spec_top_artists_len(),
    {
        self.top_artists_len
    }

    pub fn set_history_len(&mut self, max_history: i32)
        ensures
            final(self).spec_history_len() == max_history,
            final(self).spec_library_paths() == old(self).spec_library_paths(),
            final(self).spec_top_songs_len() == old(self).spec_top_songs_len(),
            final(self).spec_top_albums_len() == old(self).spec_top_albums_len(),
            final(self).spec_top_artists_len() == old(self).spec_top_artists_len(),
    {
        self.max_history = max_history;
    }

    pub fn add_library_path(&mut self, path: String)
        ensures
            final(self).spec_library_paths() == old(self).spec_library_paths().push(path@),
            final(self).spec_history_len() == old(self).spec_history_len(),
            final(self).spec_top_songs_len() == old(self).spec_top_songs_len(),
            final(self).spec_top_albums_len() == old(self).spec_top_albums_len(),
            final(self).spec_top_artists_len() == old(self).spec_top_artists_len(),
    {
        self.library_paths.push(path);
        assert(texts(self.library_paths@) =~= texts(old(self).library_paths@).push(path@));
    }

    pub fn set_top_songs_len(&mut self, len: i32)
        ensures
            final(self).spec_top_songs_len() == len,
            final(self).spec_history_len() == old(self).spec_history_len(),
            final(self).spec_library_paths() == old(self).spec_library_paths(),
            final(self).spec_top_albums_len() == old(self).spec_top_albums_len(),
            final(self).spec_top_artists_len() == old(self).spec_top_artists_len(),
    {
        self.top_songs_len = len;
    }

    pub fn set_top_albums_len(&mut self, len: i32)
        ensures
            final(self).spec_top_albums_len() == len,
            final(self).spec_history_len() == old(self).spec_history_len(),
            final(self).spec_library_paths() == old(self).spec_library_paths(),
            final(self).spec_top_songs_len() == old(self).spec_top_songs_len(),
            final(self).spec_top_artists_len() == old(self).spec_top_artists_len(),
    {
        self.top_albums_len = len;
    }

    pub fn set_top_artists_len(&mut self, len: i32)
        ensures
            final(self).spec_top_artists_len() == len,
            final(self).spec_history_len() == old(self).spec_history_len(),
            final(self).spec_library_paths() == old(self).spec_library_paths(),
            final(self).spec_top_songs_len() == old(self).spec_top_songs_len(),
            final(self).spec_top_albums_len() == old(self).spec_top_albums_len(),
    {
        self.top_artists_len = len;
    }
}

/// The report of a syntax error found in the file at `path`.
pub open spec fn error_report(message: Seq<char>, line: i32, path: Seq<char>) -> Seq<char> {
    message + " on Line "@ + int_text(line as int) + " of "@ + path
}

/// Reading the configuration: the files still to read, last named first,
/// and the errors reported so far.
pub struct ConfigRead {
    file_path_stack: Vec<String>,
    config_errors: Vec<String>,
}

impl ConfigRead {
    pub closed spec fn pending(&self) -> Seq<Seq<char>> {
        texts(self.file_path_stack@)
    }

    pub closed spec fn errors(&self) -> Seq<Seq<char>> {
        texts(self.config_errors@)
    }

    /// The next file to read, taken off the stack.
    pub fn next_path(&mut self) -> (r: Option<String>)
        ensures
            match r {
                Some(path) => old(self).pending().len() > 0 && path@ == old(self).pending().last()
                    && final(self).pending() == old(self).pending().drop_last(),
                None => old(self).pending().len() == 0 && final(self).pending() == old(self).pending(),
            },
            final(self).errors() == old(self).errors(),
    {
        let r = self.file_path_stack.pop();
        proof {
            if r is Some {
                assert(texts(self.file_path_stack@) =~= texts(old(self).file_path_stack@).drop_last());
            }
        }
        r
    }

    /// The file at `path` was read and parsed; it named the files
    /// `sub_files` and had the syntax errors `errors`. Each file stays on
    /// the stack once, where it was first put.
    pub fn file_parsed(&mut self, path: &str, sub_files: Vec<String>, errors: Vec<Error>)
        ensures
            final(self).pending() == first_occurrences(old(self).pending() + texts(sub_files@)),
            final(self).errors() == old(self).errors() + errors@.map_values(
                |e: Error| error_report(e.text(), e.line(), path@),
            ),
    {
        let mut stack: Vec<String> = Vec::new();
        std::mem::swap(&mut stack, &mut self.file_path_stack);
        let ghost start = texts(stack@);
        let mut i: usize = 0;
        while i < sub_files.len()
            invariant
                0 <= i <= sub_files@.len(),
                texts(stack@) == start + texts(sub_files@).take(i as int),
            decreases sub_files@.len() - i,
        {
            let ghost before = stack@;
            stack.push(sub_files[i].clone());
            proof {
                lemma_texts_push(before, sub_files@[i as int]);
                assert(start + texts(sub_files@).take(i + 1) =~= (start + texts(sub_files@).take(i as int)).push(
                    sub_files@[i as int]@,
                ));
            }
            i = i + 1;
        }
        assert(texts(sub_files@).take(sub_files@.len() as int) =~= texts(sub_files@));
        self.file_path_stack = unique_paths(stack);
        let ghost new_pending = texts(self.file_path_stack@);
        assert(new_pending == first_occurrences(old(self).pending() + texts(sub_files@)));
        let ghost reports = errors@.map_values(|e: Error| error_report(e.text(), e.line(), path@));
        let ghost before = texts(self.config_errors@);
        let mut j: usize = 0;
        while j < errors.len()
            invariant
                0 <= j <= errors@.len(),
                reports == errors@.map_values(|e: Error| error_report(e.text(), e.line(), path@)),
                new_pending == texts(self.file_path_stack@),
                texts(self.config_errors@) == before + reports.take(j as int),
            decreases errors@.len() - j,
        {
            let error = &errors[j];
            let mut report = error.get_message();
            push_text(&mut report, " on Line ");
            let line = int_to_text(error.get_line());
            push_text(&mut report, line.as_str());
            push_text(&mut report, " of ");
            push_text(&mut report, path);
            assert(report@ == reports[j as int]);
            let ghost pushed = self.config_errors@;
            self.config_errors.push(report);
            proof {
                lemma_texts_push(pushed, report);
                assert(before + reports.take(j + 1) =~= (before + reports.take(j as int)).push(reports[j as int]));
            }
            j = j + 1;
        }
        assert(reports.take(errors@.len() as int) =~= reports);
    }

    /// No file was found at `path`.
    pub fn file_missing(&mut self, path: &str)
        ensures
            final(self).errors() == old(self).errors().push("No File Found At "@ + path@),
            final(self).pending() == old(self).pending(),
    {
        let mut error = String::from_str("No File Found At ");
        push_text(&mut error, path);
        self.config_errors.push(error);
        assert(texts(self.config_errors@) =~= texts(old(self).config_errors@).push("No File Found At "@ + path@));
    }

    /// The file at `path` could not be read for another reason.
    pub fn file_unreadable(&mut self, path: &str)
        ensures
            final(self).errors() == old(self).errors().push("UNEXPECTED ERROR ENCOUNTERED IN "@ + path@),
            final(self).pending() == old(self).pending(),
    {
        let mut error = String::from_str("UNEXPECTED ERROR ENCOUNTERED IN ");
        push_text(&mut error, path);
        self.config_errors.push(error);
        assert(texts(self.config_errors@) =~= texts(old(self).config_errors@).push(
            "UNEXPECTED ERROR ENCOUNTERED IN "@ + path@,
        ));
    }

    /// The errors reported, in the order they were found.
    pub fn config_errors(&self) -> (r: Vec<String>)
        ensures
            texts(r@) == self.errors(),
    {
        let r = self.config_errors.clone();
        assert(texts(r@) =~= self.errors());
        r
    }
}


/// After a file is parsed, every pending path is pending once, and exactly
/// the paths that were pending or newly named are pending.
pub proof fn law_pending_paths_unique(s: Seq<Seq<char>>)
    ensures
        forall|i: int, j: int|
            0 <= i < j < first_occurrences(s).len() ==> first_occurrences(s)[i] != first_occurrences(s)[j],
        forall|x: Seq<char>| #[trigger] first_occurrences(s).contains(x) <==> s.contains(x),
    decreases s.len(),
{
    if s.len() > 0 {
        let rest = s.drop_last();
        law_pending_paths_unique(rest);
        assert forall|x: Seq<char>| #[trigger] s.contains(x) <==> rest.contains(x) || x == s.last() by {
            if s.contains(x) {
                let k = choose|k: int| 0 <= k < s.len() && s[k] == x;
                if k < s.len() - 1 {
                    assert(rest[k] == x);
                }
            }
            if rest.contains(x) {
                let k = choose|k: int| 0 <= k < rest.len() && rest[k] == x;
                assert(s[k] == x);
            }
            if x == s.last() {
                assert(s[s.len() - 1] == x);
            }
        }
        if !rest.contains(s.last()) {
            let f = first_occurrences(rest);
            assert forall|x: Seq<char>| #[trigger] f.push(s.last()).contains(x) <==> f.contains(x) || x == s.last() by {
                if f.push(s.last()).contains(x) {
                    let k = choose|k: int| 0 <= k < f.len() + 1 && f.push(s.last())[k] == x;
                    if k < f.len() {
                        assert(f[k] == x);
                    }
                }
                if f.contains(x) {
                    let k = choose|k: int| 0 <= k < f.len() && f[k] == x;
                    assert(f.push(s.last())[k] == x);
                }
                if x == s.last() {
                    assert(f.push(s.last())[f.len() as int] == x);
                }
            }
            assert forall|i: int, j: int| 0 <= i < j < f.push(s.last()).len() implies f.push(s.last())[i]
                != f.push(s.last())[j] by {
                if j == f.len() {
                    assert(f.contains(f[i]));
                }
            }
        }
    }
}

} // verus!
