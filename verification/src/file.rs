use vstd::prelude::*;
use crate::section::{FileSection, spec_section_text};
use crate::text::str_eq;

verus! {

/// One generated file: its output path and the root section of its
/// content.
#[derive(Debug)]
pub struct File {
    pub path: String,
    pub root: FileSection,
}

/// The files of one generation run, addressed by output path; paths are
/// unique and keep their insertion order. Writing them to disk is the
/// callers' I/O, outside the crate.
#[derive(Debug)]
pub struct FileSet {
    pub files: Vec<File>,
}

/// The index of the first file at `path`.
pub open spec fn spec_file_index(files: Seq<File>, path: Seq<char>) -> Option<int>
    decreases files.len(),
{
    if files.len() == 0 {
        None
    } else if files[0].path@ == path {
        Some(0)
    } else {
        match spec_file_index(files.drop_first(), path) {
            None => None,
            Some(k) => Some(k + 1),
        }
    }
}

impl File {
    /// An empty file at the given path.
    pub fn new(path: &str) -> (r: File)
        ensures
            r.path@ == path@,
            r.root.content@.len() == 0,
    {
        File { path: String::from_str(path), root: FileSection::new(path) }
    }

    /// The file's whole text.
    pub fn content(&self) -> (r: String)
        ensures
            r@ == spec_section_text(self.root),
    {
        self.root.to_text()
    }
}

impl FileSet {
    /// An empty file set.
    pub fn new() -> (r: FileSet)
        ensures
            r.files@.len() == 0,
    {
        FileSet { files: Vec::new() }
    }

    /// The position of the file at `path`, creating an empty one at the
    /// end when the path is new.
    pub fn entry(&mut self, path: &str) -> (r: usize)
        ensures
            r < final(self).files@.len(),
            final(self).files@[r as int].path@ == path@,
            match spec_file_index(old(self).files@, path@) {
                Some(k) => *final(self) == *old(self) && r == k,
                None => final(self).files@ == old(self).files@.push(
                    final(self).files@[r as int],
                ) && final(self).files@[r as int].root.content@.len() == 0,
            },
    {
        let n = self.files.len();
        let mut i: usize = 0;
        while i < n
            invariant
                0 <= i <= n,
                n == self.files@.len(),
                *self == *old(self),
                forall|j: int| 0 <= j < i ==> (#[trigger] self.files@[j]).path@ != path@,
            decreases n - i,
        {
            if str_eq(self.files[i].path.as_str(), path) {
                proof {
                    lemma_file_index_first(self.files@, path@, i as int);
                }
                return i;
            }
            i += 1;
        }
        proof {
            lemma_file_index_none(self.files@, path@);
        }
        self.files.push(File::new(path));
        return self.files.len() - 1;
    }

    /// The file at `path`.
    pub fn get(&self, path: &str) -> (r: Option<&File>)
        ensures
            match r {
                Some(f) => spec_file_index(self.files@, path@) matches Some(k) && self.files@[k]
                    == *f,
                None => spec_file_index(self.files@, path@) is None,
            },
    {
        let n = self.files.len();
        let mut i: usize = 0;
        while i < n
            invariant
                0 <= i <= n,
                n == self.files@.len(),
                forall|j: int| 0 <= j < i ==> (#[trigger] self.files@[j]).path@ != path@,
            decreases n - i,
        {
            if str_eq(self.files[i].path.as_str(), path) {
                proof {
                    lemma_file_index_first(self.files@, path@, i as int);
                }
                return Some(&self.files[i]);
            }
            i += 1;
        }
        proof {
            lemma_file_index_none(self.files@, path@);
        }
        None
    }
}

/// When the first `i` files miss the path but file `i` carries it, it is
/// the first index.
proof fn lemma_file_index_first(files: Seq<File>, path: Seq<char>, i: int)
    requires
        0 <= i < files.len(),
        files[i].path@ == path,
        forall|j: int| 0 <= j < i ==> (#[trigger] files[j]).path@ != path,
    ensures
        spec_file_index(files, path) == Some(i),
    decreases i,
{
    if i > 0 {
        assert forall|j: int| 0 <= j < i - 1 implies (#[trigger] files.drop_first()[j]).path@
            != path by {
            assert(files.drop_first()[j] == files[j + 1]);
        }
        assert(files.drop_first()[i - 1] == files[i]);
        lemma_file_index_first(files.drop_first(), path, i - 1);
    }
}

/// When no file carries the path, there is no index.
proof fn lemma_file_index_none(files: Seq<File>, path: Seq<char>)
    requires
        forall|j: int| 0 <= j < files.len() ==> (#[trigger] files[j]).path@ != path,
    ensures
        spec_file_index(files, path) is None,
    decreases files.len(),
{
    if files.len() > 0 {
        assert forall|j: int|
            0 <= j < files.drop_first().len() implies (#[trigger] files.drop_first()[j]).path@
            != path by {
            assert(files.drop_first()[j] == files[j + 1]);
        }
        lemma_file_index_none(files.drop_first(), path);
    }
}

} // verus!
