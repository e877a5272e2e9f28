use vstd::prelude::*;
use crate::identifier::{Identifier, IdentifierKind, spec_kind_of};
use crate::path::Path;
use crate::tree::{HasBranches, IsTree, find_branch};

verus! {

/// A parent-linked view of a borrowed tree node: the chain of nodes from
/// the root down to the current one, and the current node's resolved
/// path. A child never outlives its root, and a node's ancestry is fixed
/// when the visitor is built, so no chain can be cyclic.
pub struct Visitor<'a, V: IsTree> {
    stack: Vec<&'a V>,
    path: Path,
}

impl<'a, V: IsTree> Visitor<'a, V> {
    /// The chain of nodes this visitor stands for: the root first, the
    /// current node last.
    pub closed spec fn nodes(&self) -> Seq<V> {
        Seq::new(self.stack@.len() as nat, |i: int| *self.stack@[i])
    }

    /// The current node's path.
    pub closed spec fn path_view(&self) -> Seq<Seq<char>> {
        self.path@
    }

    /// How many leading path segments belong to the root node itself.
    pub closed spec fn base_len(&self) -> int {
        self.path@.len() - (self.stack@.len() - 1)
    }

    #[verifier::type_invariant]
    spec fn wf(&self) -> bool {
        &&& self.stack@.len() >= 1
        &&& self.path@.len() >= self.stack@.len() - 1
        &&& forall|t: int| 1 <= t < self.stack@.len() ==> (#[trigger] self.stack@[t]).spec_identifier()
            == self.path@[self.base_len() + (t - 1)]
    }

    /// Builds a visitor for `value`. With a parent, the path must extend
    /// the parent's path by the value's identifier, as `child` builds it.
    pub fn new(value: &'a V, parent: Option<Visitor<'a, V>>, path: Path) -> (r: Visitor<'a, V>)
        requires
            parent matches Some(p) ==> path@ == p.path_view().push(value.spec_identifier()),
        ensures
            match parent {
                Some(p) => r.nodes() == p.nodes().push(*value),
                None => r.nodes() == seq![*value],
            },
            r.path_view() == path@,
    {
        match parent {
            Some(p) => {
                proof {
                    use_type_invariant(&p);
                }
                let mut stack = clone_stack(&p.stack);
                stack.push(value);
                let r = Visitor { stack, path };
                proof {
                    assert(r.nodes() =~= p.nodes().push(*value));
                }
                r
            },
            None => {
                let mut stack: Vec<&'a V> = Vec::new();
                stack.push(value);
                let r = Visitor { stack, path };
                proof {
                    assert(r.nodes() =~= seq![*value]);
                }
                r
            },
        }
    }

    /// The node this visitor stands on.
    pub fn value(&self) -> (r: &'a V)
        ensures
            self.nodes().len() >= 1,
            *r == self.nodes().last(),
    {
        proof {
            use_type_invariant(self);
        }
        self.stack[self.stack.len() - 1]
    }

    /// The current node's path.
    pub fn path(&self) -> (r: &Path)
        ensures
            r@ == self.path_view(),
    {
        &self.path
    }

    /// The visitor one step up, sharing the ancestry; `None` at the root.
    pub fn parent(&self) -> (r: Option<Visitor<'a, V>>)
        ensures
            self.nodes().len() >= 1,
            self.nodes().len() == 1 ==> r is None,
            self.nodes().len() > 1 ==> (r matches Some(p) && p.nodes() == self.nodes().drop_last()
                && p.path_view() == self.path_view().drop_last()),
    {
        proof {
            use_type_invariant(self);
        }
        if self.stack.len() == 1 {
            None
        } else {
            let mut stack = clone_stack(&self.stack);
            let _ = stack.pop();
            let mut path = self.path.clone();
            let _ = path.pop_back();
            let r = Visitor { stack, path };
            proof {
                assert(r.nodes() =~= self.nodes().drop_last());
            }
            Some(r)
        }
    }

    /// The visitor for a child node: its path is this node's path joined
    /// with the child's identifier, and its parent chain grows by `self`.
    pub fn child(&self, value: &'a V) -> (r: Visitor<'a, V>)
        ensures
            r.nodes() == self.nodes().push(*value),
            r.path_view() == self.path_view().push(value.spec_identifier()),
    {
        proof {
            use_type_invariant(self);
        }
        let mut stack = clone_stack(&self.stack);
        stack.push(value);
        let mut path = self.path.clone();
        path.push_back(Identifier::new(value.identifier().as_str()));
        let r = Visitor { stack, path };
        proof {
            assert(r.nodes() =~= self.nodes().push(*value));
        }
        r
    }

    /// The visitor at the top of the parent chain: a node without a
    /// parent is its own root.
    pub fn root(&self) -> (r: Visitor<'a, V>)
        ensures
            self.nodes().len() >= 1,
            r.nodes() == seq![self.nodes()[0]],
            r.path_view() == self.path_view().take(self.base_len()),
    {
        proof {
            use_type_invariant(self);
        }
        let mut stack: Vec<&'a V> = Vec::new();
        stack.push(self.stack[0]);
        let keep = self.path.segments.len() - (self.stack.len() - 1);
        let mut segments: Vec<Identifier> = Vec::new();
        let mut i: usize = 0;
        while i < keep
            invariant
                0 <= i <= keep,
                keep <= self.path.segments@.len(),
                segments@.len() == i,
                forall|j: int| 0 <= j < i ==> #[trigger] segments@[j]@ == self.path@[j],
            decreases keep - i,
        {
            segments.push(self.path.segments[i].clone());
            i += 1;
        }
        let path = Path { segments };
        let r = Visitor { stack, path };
        proof {
            assert(r.nodes() =~= seq![self.nodes()[0]]);
            assert(r.path_view() =~= self.path_view().take(self.base_len()));
        }
        r
    }
}

/// A copy of a stack of borrowed nodes.
fn clone_stack<'a, V: IsTree>(stack: &Vec<&'a V>) -> (r: Vec<&'a V>)
    ensures
        r@ == stack@,
{
    let n = stack.len();
    let mut r: Vec<&'a V> = Vec::new();
    let mut i: usize = 0;
    while i < n
        invariant
            0 <= i <= n,
            n == stack@.len(),
            r@.len() == i,
            forall|j: int| 0 <= j < i ==> r@[j] == stack@[j],
        decreases n - i,
    {
        r.push(stack[i]);
        i += 1;
    }
    proof {
        assert(r@ =~= stack@);
    }
    r
}

/// What a relative path resolves to, from a chain of nodes: `root` jumps
/// to the chain's first node, `self` stays, `super` steps up (and fails
/// at the root), and any other name descends into the branch it names;
/// resolution is left to right and stops at the first failure.
pub open spec fn spec_resolve<V: IsTree>(nodes: Seq<V>, segments: Seq<Seq<char>>) -> Option<
    Seq<V>,
>
    decreases segments.len(),
{
    if segments.len() == 0 {
        Some(nodes)
    } else {
        let kind = spec_kind_of(segments[0]);
        if kind == IdentifierKind::Root {
            spec_resolve(seq![nodes[0]], segments.drop_first())
        } else if kind == IdentifierKind::SelfRef {
            spec_resolve(nodes, segments.drop_first())
        } else if kind == IdentifierKind::SuperRef {
            if nodes.len() <= 1 {
                None
            } else {
                spec_resolve(nodes.drop_last(), segments.drop_first())
            }
        } else {
            match find_branch(nodes.last().spec_branches(), segments[0]) {
                None => None,
                Some(b) => spec_resolve(nodes.push(b), segments.drop_first()),
            }
        }
    }
}

impl<'a, V: IsTree> Visitor<'a, V> {
    /// Resolves a relative path from this node; `None` when a segment
    /// cannot be followed.
    pub fn relative(&self, segments: &Vec<Identifier>) -> (r: Option<Visitor<'a, V>>)
        ensures
            match r {
                Some(v) => spec_resolve(
                    self.nodes(),
                    segments@.map_values(|s: Identifier| s@),
                ) == Some(v.nodes()),
                None => spec_resolve(self.nodes(), segments@.map_values(|s: Identifier| s@))
                    is None,
            },
    {
        proof {
            use_type_invariant(self);
        }
        let n = segments.len();
        let mut stack = clone_stack(&self.stack);
        let mut path = self.path.clone();
        let ghost names = segments@.map_values(|s: Identifier| s@);
        let mut i: usize = 0;
        proof {
            assert(names.skip(0) =~= names);
            assert(nodes_of(stack@) =~= self.nodes());
        }
        loop
            invariant
                0 <= i <= n,
                n == names.len(),
                n == segments@.len(),
                names == segments@.map_values(|s: Identifier| s@),
                stack@.len() >= 1,
                path@.len() >= stack@.len() - 1,
                forall|t: int| 1 <= t < stack@.len() ==> (#[trigger] stack@[t]).spec_identifier()
                    == path@[path@.len() - (stack@.len() - 1) + (t - 1)],
                spec_resolve(self.nodes(), names) == spec_resolve(
                    nodes_of(stack@),
                    names.skip(i as int),
                ),
            decreases n - i,
        {
            if i == n {
                let r = Visitor { stack, path };
                proof {
                    assert(nodes_of(r.stack@) =~= r.nodes());
                }
                return Some(r);
            }
            proof {
                assert(names.skip(i as int)[0] == names[i as int]);
                assert(names.skip(i as int).drop_first() =~= names.skip(i + 1));
            }
            let ghost old_stack = stack@;
            let segment = &segments[i];
            match segment.kind() {
                IdentifierKind::Root => {
                    let root_node = stack[0];
                    let keep = path.segments.len() - (stack.len() - 1);
                    let ghost old_path = path@;
                    let mut j: usize = path.segments.len();
                    proof {
                        assert(path@ =~= old_path.take(j as int));
                    }
                    while j > keep
                        invariant
                            keep <= j,
                            j == path@.len(),
                            j <= old_path.len(),
                            path@ =~= old_path.take(j as int),
                        decreases j,
                    {
                        let _ = path.pop_back();
                        proof {
                            assert(old_path.take(j as int).drop_last() =~= old_path.take(j - 1));
                        }
                        j -= 1;
                    }
                    let mut new_stack: Vec<&'a V> = Vec::new();
                    new_stack.push(root_node);
                    stack = new_stack;
                    proof {
                        assert(nodes_of(stack@) =~= seq![nodes_of(old_stack)[0]]);
                    }
                },
                IdentifierKind::SelfRef => {},
                IdentifierKind::SuperRef => {
                    if stack.len() == 1 {
                        return None;
                    }
                    let _ = stack.pop();
                    let _ = path.pop_back();
                    proof {
                        assert(nodes_of(stack@) =~= nodes_of(old_stack).drop_last());
                    }
                },
                IdentifierKind::Other => {
                    let current: &'a V = stack[stack.len() - 1];
                    proof {
                        assert(*current == nodes_of(old_stack).last());
                    }
                    match current.get(segment.name.as_str()) {
                        None => {
                            return None;
                        },
                        Some(b) => {
                            proof {
                                lemma_find_branch_identifier(
                                    current.spec_branches(),
                                    names[i as int],
                                    *b,
                                );
                            }
                            stack.push(b);
                            path.push_back(segment.clone());
                            proof {
                                assert(nodes_of(stack@) =~= nodes_of(old_stack).push(*b));
                            }
                        },
                    }
                },
            }
            i += 1;
        }
    }
}

/// The element `find_branch` returns carries the name it was found by.
pub proof fn lemma_find_branch_identifier<T: HasBranches>(s: Seq<T>, name: Seq<char>, b: T)
    requires
        find_branch(s, name) == Some(b),
    ensures
        b.spec_identifier() == name,
    decreases s.len(),
{
    if s.len() > 0 && s[0].spec_identifier() != name {
        lemma_find_branch_identifier(s.drop_first(), name, b);
    }
}

/// The nodes a stack of borrows stands for.
pub open spec fn nodes_of<V>(stack: Seq<&V>) -> Seq<V> {
    Seq::new(stack.len(), |i: int| *stack[i])
}

/// Any chain of `child` steps keeps the root: when one visitor's nodes
/// extend another's, both start from the same root node.
pub proof fn lemma_child_chain_keeps_root<V: IsTree>(ancestor: Seq<V>, descendant: Seq<V>)
    requires
        ancestor.len() >= 1,
        descendant.len() >= ancestor.len(),
        descendant.take(ancestor.len() as int) == ancestor,
    ensures
        descendant[0] == ancestor[0],
{
    assert(descendant.take(ancestor.len() as int)[0] == descendant[0]);
}

/// From a node with no parent, a leading `super` segment is
/// unresolvable.
pub proof fn lemma_super_unresolvable_at_root<V: IsTree>(nodes: Seq<V>, segments: Seq<Seq<char>>)
    requires
        nodes.len() == 1,
        segments.len() > 0,
        spec_kind_of(segments[0]) == IdentifierKind::SuperRef,
    ensures
        spec_resolve(nodes, segments) is None,
{
}

/// A leading `self` segment resolves to whatever the remaining segments
/// resolve to.
pub proof fn lemma_self_segment_skipped<V: IsTree>(nodes: Seq<V>, segments: Seq<Seq<char>>)
    requires
        segments.len() > 0,
        spec_kind_of(segments[0]) == IdentifierKind::SelfRef,
    ensures
        spec_resolve(nodes, segments) == spec_resolve(nodes, segments.drop_first()),
{
}

} // verus!
