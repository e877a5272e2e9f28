use vstd::prelude::*;
use crate::text::str_eq;

verus! {

/// An entity with a canonical name.
pub trait HasIdentifier: Sized {
    /// The entity's name, as the specification sees it.
    spec fn spec_identifier(&self) -> Seq<char>;

    /// The entity's name.
    fn identifier(&self) -> (r: &String)
        ensures
            r@ == self.spec_identifier(),
    ;
}

/// An entity whose immediate branches the specification can see.
pub trait HasBranches: HasIdentifier {
    /// The entity's immediate branches, as the specification sees them.
    spec fn spec_branches(&self) -> Seq<Self>;
}

/// First element of `s` whose identifier is `name`.
pub open spec fn find_branch<T: HasBranches>(s: Seq<T>, name: Seq<char>) -> Option<T>
    decreases s.len(),
{
    if s.len() == 0 {
        None
    } else if s[0].spec_identifier() == name {
        Some(s[0])
    } else {
        find_branch(s.drop_first(), name)
    }
}

/// The element `find_branch` returns is one of the list.
pub proof fn lemma_find_branch_member<T: HasBranches>(s: Seq<T>, name: Seq<char>, b: T)
    requires
        find_branch(s, name) == Some(b),
    ensures
        exists|i: int| 0 <= i < s.len() && s[i] == b,
    decreases s.len(),
{
    if s.len() > 0 {
        if s[0].spec_identifier() == name {
            assert(s[0] == b);
        } else {
            lemma_find_branch_member(s.drop_first(), name, b);
            let w = choose|i: int| 0 <= i < s.drop_first().len() && s.drop_first()[i] == b;
            assert(s[w + 1] == b);
        }
    }
}

/// The node `path` leads to from `t`, descending one branch per segment;
/// `None` on the first missing segment.
pub open spec fn spec_path_get<T: HasBranches>(t: T, path: Seq<Seq<char>>) -> Option<T>
    decreases path.len(),
{
    if path.len() == 0 {
        Some(t)
    } else {
        match find_branch(t.spec_branches(), path[0]) {
            None => None,
            Some(b) => spec_path_get(b, path.drop_first()),
        }
    }
}

/// A named entity with named branches: single-level lookup by name, and
/// iterative descent along a path of names.
pub trait IsTree: HasBranches {
    /// Whether the entity carries this name.
    fn is(&self, identifier: &str) -> (r: bool)
        ensures
            r == (identifier@ == self.spec_identifier()),
    ;

    /// First branch carrying the name; single-level.
    fn get(&self, key: &str) -> (r: Option<&Self>)
        ensures
            match r {
                Some(b) => find_branch(self.spec_branches(), key@) == Some(*b),
                None => find_branch(self.spec_branches(), key@) is None,
            },
    ;

    /// Descends one branch per path segment; `None` on the first missing
    /// segment; the empty path names the entity itself.
    fn path_get(&self, path: &[&str]) -> (r: Option<&Self>)
        ensures
            match r {
                Some(b) => spec_path_get(*self, path@.map_values(|s: &str| s@)) == Some(*b),
                None => spec_path_get(*self, path@.map_values(|s: &str| s@)) is None,
            },
    ;

    /// The immediate branches, in order.
    fn branches(&self) -> (r: Vec<&Self>)
        ensures
            r@.len() == self.spec_branches().len(),
            forall|i: int| 0 <= i < r@.len() ==> *(#[trigger] r@[i]) == self.spec_branches()[i],
    ;
}

/// A generic tree: a value and its subtrees, addressed by the values'
/// identifiers. Branch order is insertion order; `add_branch` keeps
/// identifiers unique by leaving the tree unchanged when the name is
/// already taken.
pub struct Tree<V: HasIdentifier> {
    pub value: V,
    pub children: Vec<Tree<V>>,
}

impl<V: HasIdentifier> Tree<V> {
    /// A leaf tree around a value.
    pub fn from(value: V) -> (r: Tree<V>)
        ensures
            r.value == value,
            r.children@.len() == 0,
    {
        Tree { value, children: Vec::new() }
    }

    /// Adds a subtree, unless a branch of that name already exists.
    pub fn add_branch(&mut self, child: Tree<V>)
        ensures
            (find_branch(old(self).spec_branches(), child.spec_identifier()) is Some)
                ==> *final(self) == *old(self),
            (find_branch(old(self).spec_branches(), child.spec_identifier()) is None) ==> {
                &&& final(self).value == old(self).value
                &&& final(self).children@ == old(self).children@.push(child)
            },
    {
        let existing = self.get(child.value.identifier().as_str());
        match existing {
            Some(_) => {},
            None => {
                self.children.push(child);
            },
        }
    }
}

impl<V: HasIdentifier> HasIdentifier for Tree<V> {
    open spec fn spec_identifier(&self) -> Seq<char> {
        self.value.spec_identifier()
    }

    fn identifier(&self) -> (r: &String) {
        self.value.identifier()
    }
}

impl<V: HasIdentifier> HasBranches for Tree<V> {
    open spec fn spec_branches(&self) -> Seq<Tree<V>> {
        self.children@
    }
}

impl<V: HasIdentifier> IsTree for Tree<V> {
    fn is(&self, identifier: &str) -> (r: bool) {
        str_eq(identifier, self.value.identifier().as_str())
    }

    fn get(&self, key: &str) -> (r: Option<&Tree<V>>) {
        let n = self.children.len();
        let mut i: usize = 0;
        proof {
            assert(self.children@.skip(0) =~= self.children@);
        }
        loop
            invariant
                0 <= i <= n,
                n == self.children@.len(),
                find_branch(self.children@, key@) == find_branch(
                    self.children@.skip(i as int),
                    key@,
                ),
            decreases n - i,
        {
            if i == n {
                return None;
            }
            proof {
                assert(self.children@.skip(i as int)[0] == self.children@[i as int]);
            }
            if str_eq(self.children[i].value.identifier().as_str(), key) {
                return Some(&self.children[i]);
            }
            proof {
                assert(self.children@.skip(i as int).drop_first() =~= self.children@.skip(i + 1));
            }
            i += 1;
        }
    }

    fn branches(&self) -> (r: Vec<&Tree<V>>) {
        let n = self.children.len();
        let mut r: Vec<&Tree<V>> = Vec::new();
        let mut i: usize = 0;
        while i < n
            invariant
                0 <= i <= n,
                n == self.children@.len(),
                r@.len() == i,
                forall|j: int| 0 <= j < i ==> *(#[trigger] r@[j]) == self.children@[j],
            decreases n - i,
        {
            r.push(&self.children[i]);
            i += 1;
        }
        r
    }

    fn path_get(&self, path: &[&str]) -> (r: Option<&Tree<V>>) {
        let n = path.len();
        let mut current: &Tree<V> = self;
        let mut i: usize = 0;
        let ghost names = path@.map_values(|s: &str| s@);
        proof {
            assert(names.skip(0) =~= names);
        }
        loop
            invariant
                0 <= i <= n,
                n == names.len(),
                n == path@.len(),
                names == path@.map_values(|s: &str| s@),
                spec_path_get(*self, names) == spec_path_get(*current, names.skip(i as int)),
            decreases n - i,
        {
            if i == n {
                return Some(current);
            }
            proof {
                assert(names.skip(i as int)[0] == names[i as int]);
            }
            let child = match current.get(path[i]) {
                Some(child) => child,
                None => {
                    return None;
                },
            };
            proof {
                assert(names.skip(i as int).drop_first() =~= names.skip(i + 1));
            }
            current = child;
            i += 1;
        }
    }
}

} // verus!
