use vstd::prelude::*;
use vstd::string::*;
use crate::error::Error;
use crate::text::str_eq;
use crate::tree::{HasBranches, HasIdentifier, IsTree, find_branch, spec_path_get};

verus! {

/// One fragment of a generated file: literal text, or a nested named
/// section.
#[derive(Debug)]
pub enum FileContent {
    Text(String),
    Section(FileSection),
}

/// A named, tree-structured buffer of generated output: ordered
/// fragments, each literal text or a nested section that can still be
/// addressed and filled by name.
#[derive(Debug)]
pub struct FileSection {
    pub name: String,
    pub content: Vec<FileContent>,
}

/// The text a fragment serializes to.
pub open spec fn spec_content_text(c: FileContent) -> Seq<char>
    decreases c,
{
    match c {
        FileContent::Text(t) => t@,
        FileContent::Section(s) => spec_contents_text(s.content@),
    }
}

/// The text a fragment list serializes to: each fragment in order,
/// nested sections depth first.
pub open spec fn spec_contents_text(cs: Seq<FileContent>) -> Seq<char>
    decreases cs,
{
    if cs.len() == 0 {
        Seq::empty()
    } else {
        spec_content_text(cs[0]) + spec_contents_text(cs.drop_first())
    }
}

/// The text a section serializes to.
pub open spec fn spec_section_text(s: FileSection) -> Seq<char> {
    spec_contents_text(s.content@)
}

impl FileSection {
    /// Builds an empty section with the given name.
    pub fn new(name: &str) -> (r: FileSection)
        ensures
            r.name@ == name@,
            r.content@.len() == 0,
    {
        FileSection { name: String::from_str(name), content: Vec::new() }
    }

    /// Appends a literal fragment.
    pub fn write(&mut self, content: &str)
        ensures
            final(self).name == old(self).name,
            final(self).content@.len() == old(self).content@.len() + 1,
            final(self).content@.drop_last() == old(self).content@,
            final(self).content@.last() matches FileContent::Text(t) && t@ == content@,
    {
        self.content.push(FileContent::Text(String::from_str(content)));
        proof {
            assert(self.content@.drop_last() =~= old(self).content@);
        }
    }

    /// Appends a literal fragment and a line break.
    pub fn writeln(&mut self, content: &str)
        ensures
            final(self).name == old(self).name,
            final(self).content@.len() == old(self).content@.len() + 1,
            final(self).content@.drop_last() == old(self).content@,
            final(self).content@.last() matches FileContent::Text(t) && t@ == content@.push('\n'),
    {
        let mut line = String::from_str(content);
        line.append("\n");
        proof {
            assert("\n"@ =~= seq!['\n']) by {
                reveal_strlit("\n");
            }
            assert(line@ =~= content@.push('\n'));
        }
        self.content.push(FileContent::Text(line));
        proof {
            assert(self.content@.drop_last() =~= old(self).content@);
        }
    }

    /// Inserts a literal fragment at the given position of the content
    /// list.
    pub fn indexed_write(&mut self, index: usize, content: &str)
        requires
            index <= old(self).content@.len(),
        ensures
            final(self).name == old(self).name,
            final(self).content@.len() == old(self).content@.len() + 1,
            final(self).content@ == old(self).content@.insert(
                index as int,
                final(self).content@[index as int],
            ),
            final(self).content@[index as int] matches FileContent::Text(t) && t@ == content@,
    {
        self.content.insert(index, FileContent::Text(String::from_str(content)));
    }

    /// Inserts a literal fragment and a line break at the given position.
    pub fn indexed_writeln(&mut self, index: usize, content: &str)
        requires
            index <= old(self).content@.len(),
        ensures
            final(self).name == old(self).name,
            final(self).content@.len() == old(self).content@.len() + 1,
            final(self).content@ == old(self).content@.insert(
                index as int,
                final(self).content@[index as int],
            ),
            final(self).content@[index as int] matches FileContent::Text(t) && t@ == content@.push(
                '\n',
            ),
    {
        let mut line = String::from_str(content);
        line.append("\n");
        proof {
            assert("\n"@ =~= seq!['\n']) by {
                reveal_strlit("\n");
            }
            assert(line@ =~= content@.push('\n'));
        }
        self.content.insert(index, FileContent::Text(line));
    }

    /// Appends a nested section.
    pub fn add_branch(&mut self, section: FileSection)
        ensures
            final(self).name == old(self).name,
            final(self).content@.len() == old(self).content@.len() + 1,
            final(self).content@.drop_last() == old(self).content@,
            final(self).content@.last() == FileContent::Section(section),
    {
        self.content.push(FileContent::Section(section));
        proof {
            assert(self.content@.drop_last() =~= old(self).content@);
        }
    }

    /// The section's serialization: every fragment in order, nested
    /// sections depth first.
    pub fn to_text(&self) -> (r: String)
        ensures
            r@ == spec_section_text(*self),
        decreases *self,
    {
        let mut out = String::new();
        let n = self.content.len();
        let mut i: usize = 0;
        proof {
            assert(self.content@.skip(0) =~= self.content@);
        }
        while i < n
            invariant
                0 <= i <= n,
                n == self.content@.len(),
                spec_contents_text(self.content@) == out@ + spec_contents_text(
                    self.content@.skip(i as int),
                ),
            decreases n - i,
        {
            proof {
                assert(self.content@.skip(i as int)[0] == self.content@[i as int]);
                assert(self.content@.skip(i as int).drop_first() =~= self.content@.skip(i + 1));
            }
            let ghost out0 = out@;
            match &self.content[i] {
                FileContent::Text(t) => {
                    out.append(t.as_str());
                },
                FileContent::Section(s) => {
                    let nested = s.to_text();
                    out.append(nested.as_str());
                },
            }
            proof {
                assert(out@ == out0 + spec_content_text(self.content@[i as int]));
                assert((out0 + spec_content_text(self.content@[i as int])) + spec_contents_text(
                    self.content@.skip(i + 1),
                ) =~= out0 + (spec_content_text(self.content@[i as int]) + spec_contents_text(
                    self.content@.skip(i + 1),
                )));
            }
            i += 1;
        }
        proof {
            assert(spec_contents_text(self.content@.skip(n as int)) =~= Seq::<char>::empty());
            assert(out@ =~= out@ + spec_contents_text(self.content@.skip(n as int)));
        }
        out
    }
}

/// The values a list of borrows stands for.
pub open spec fn refs_of(s: Seq<&FileSection>) -> Seq<FileSection> {
    Seq::new(s.len(), |i: int| *s[i])
}

/// The nested sections of a fragment list, in order.
pub open spec fn spec_sections_of(cs: Seq<FileContent>) -> Seq<FileSection>
    decreases cs,
{
    if cs.len() == 0 {
        Seq::empty()
    } else {
        let rest = spec_sections_of(cs.drop_first());
        match cs[0] {
            FileContent::Section(s) => seq![s] + rest,
            _ => rest,
        }
    }
}

impl HasIdentifier for FileSection {
    open spec fn spec_identifier(&self) -> Seq<char> {
        self.name@
    }

    fn identifier(&self) -> (r: &String) {
        &self.name
    }
}

impl HasBranches for FileSection {
    open spec fn spec_branches(&self) -> Seq<FileSection> {
        spec_sections_of(self.content@)
    }
}

impl IsTree for FileSection {
    fn is(&self, identifier: &str) -> (r: bool) {
        str_eq(identifier, self.name.as_str())
    }

    fn get(&self, key: &str) -> (r: Option<&FileSection>) {
        let n = self.content.len();
        let mut i: usize = 0;
        proof {
            assert(self.content@.skip(0) =~= self.content@);
        }
        loop
            invariant
                0 <= i <= n,
                n == self.content@.len(),
                find_branch(spec_sections_of(self.content@), key@) == find_branch(
                    spec_sections_of(self.content@.skip(i as int)),
                    key@,
                ),
            decreases n - i,
        {
            if i == n {
                return None;
            }
            proof {
                assert(self.content@.skip(i as int)[0] == self.content@[i as int]);
                assert(self.content@.skip(i as int).drop_first() =~= self.content@.skip(i + 1));
            }
            match &self.content[i] {
                FileContent::Section(s) => {
                    proof {
                        assert(spec_sections_of(self.content@.skip(i as int)) =~= seq![*s]
                            + spec_sections_of(self.content@.skip(i + 1)));
                        assert((seq![*s] + spec_sections_of(self.content@.skip(i + 1)))[0] == *s);
                        assert((seq![*s] + spec_sections_of(self.content@.skip(i + 1))).drop_first()
                            =~= spec_sections_of(self.content@.skip(i + 1)));
                    }
                    if str_eq(s.name.as_str(), key) {
                        return Some(s);
                    }
                },
                _ => {
                    proof {
                        assert(spec_sections_of(self.content@.skip(i as int))
                            == spec_sections_of(self.content@.skip(i + 1)));
                    }
                },
            }
            i += 1;
        }
    }

    fn branches(&self) -> (r: Vec<&FileSection>) {
        let n = self.content.len();
        let mut r: Vec<&FileSection> = Vec::new();
        let mut i: usize = 0;
        proof {
            assert(self.content@.skip(0) =~= self.content@);
            assert(refs_of(r@) =~= Seq::<FileSection>::empty());
        }
        while i < n
            invariant
                0 <= i <= n,
                n == self.content@.len(),
                spec_sections_of(self.content@) =~= refs_of(r@) + spec_sections_of(
                    self.content@.skip(i as int),
                ),
            decreases n - i,
        {
            proof {
                assert(self.content@.skip(i as int)[0] == self.content@[i as int]);
                assert(self.content@.skip(i as int).drop_first() =~= self.content@.skip(i + 1));
            }
            let ghost r0 = r@;
            match &self.content[i] {
                FileContent::Section(section) => {
                    r.push(section);
                    proof {
                        assert(refs_of(r@) =~= refs_of(r0).push(*section));
                        assert(refs_of(r0) + (seq![*section] + spec_sections_of(
                            self.content@.skip(i + 1),
                        )) =~= refs_of(r@) + spec_sections_of(self.content@.skip(i + 1)));
                    }
                },
                _ => {},
            }
            i += 1;
        }
        proof {
            assert(spec_sections_of(self.content@.skip(n as int)) =~= Seq::<FileSection>::empty());
            assert(refs_of(r@) + spec_sections_of(self.content@.skip(n as int)) =~= refs_of(r@));
            assert forall|j: int| 0 <= j < r@.len() implies *(#[trigger] r@[j])
                == self.spec_branches()[j] by {
                assert(refs_of(r@)[j] == *r@[j]);
            }
        }
        r
    }

    fn path_get(&self, path: &[&str]) -> (r: Option<&FileSection>) {
        let n = path.len();
        let mut current: &FileSection = self;
        let mut i: usize = 0;
        let ghost names = path@.map_values(|s: &str| s@);
        proof {
            assert(names.skip(0) =~= names);
        }
        loop
            invariant
                0 <= i <= n,
                n == names.len(),
                n == path@.len(),
                names == path@.map_values(|s: &str| s@),
                spec_path_get(*self, names) == spec_path_get(*current, names.skip(i as int)),
            decreases n - i,
        {
            if i == n {
                return Some(current);
            }
            proof {
                assert(names.skip(i as int)[0] == names[i as int]);
            }
            let child = match current.get(path[i]) {
                Some(child) => child,
                None => {
                    return None;
                },
            };
            proof {
                assert(names.skip(i as int).drop_first() =~= names.skip(i + 1));
            }
            current = child;
            i += 1;
        }
    }
}

} // verus!
