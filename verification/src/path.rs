use vstd::prelude::*;
use crate::identifier::Identifier;
use crate::text::{lex_le, str_eq, str_lex_le, lemma_lex_le_total, lemma_lex_le_antisymmetric,
    lemma_lex_le_transitive};

verus! {

/// An ordered sequence of identifiers addressing an entity in the tree.
#[derive(Debug)]
pub struct Path {
    pub segments: Vec<Identifier>,
}

impl View for Path {
    type V = Seq<Seq<char>>;

    open spec fn view(&self) -> Seq<Seq<char>> {
        self.segments@.map_values(|s: Identifier| s@)
    }
}

impl Path {
    /// The empty path.
    pub fn empty() -> (r: Self)
        ensures
            r@ == Seq::<Seq<char>>::empty(),
    {
        let r = Path { segments: Vec::new() };
        proof {
            assert(r@ =~= Seq::<Seq<char>>::empty());
        }
        r
    }

    /// A path of a single segment.
    pub fn from_identifier(identifier: Identifier) -> (r: Self)
        ensures
            r@ =~= seq![identifier@],
    {
        let mut segments: Vec<Identifier> = Vec::new();
        segments.push(identifier);
        Path { segments }
    }

    /// A single-segment path from a name.
    pub fn from_name(name: &str) -> (r: Self)
        ensures
            r@ =~= seq![name@],
    {
        Path::from_identifier(Identifier::new(name))
    }

    /// Concatenates two paths.
    pub fn join(self, other: Path) -> (r: Path)
        ensures
            r@ == self@ + other@,
    {
        let mut segments = self.segments;
        let mut rest = other.segments;
        segments.append(&mut rest);
        let r = Path { segments };
        proof {
            assert(r@ =~= self@ + other@);
        }
        r
    }

    /// Appends one segment at the back.
    pub fn push_back(&mut self, identifier: Identifier)
        ensures
            final(self)@ == old(self)@.push(identifier@),
    {
        self.segments.push(identifier);
        proof {
            assert(self@ =~= old(self)@.push(identifier@));
        }
    }

    /// Prepends one segment at the front.
    pub fn push_front(&mut self, identifier: Identifier)
        ensures
            final(self)@ == seq![identifier@] + old(self)@,
    {
        self.segments.insert(0, identifier);
        proof {
            assert(self@ =~= seq![identifier@] + old(self)@);
        }
    }

    /// Removes and returns the first segment.
    pub fn pop_front(&mut self) -> (r: Option<Identifier>)
        ensures
            old(self)@.len() == 0 ==> r is None && final(self)@ == old(self)@,
            old(self)@.len() > 0 ==> (r matches Some(s) && s@ == old(self)@[0] && final(self)@
                == old(self)@.drop_first()),
    {
        if self.segments.len() == 0 {
            None
        } else {
            let s = self.segments.remove(0);
            proof {
                assert(self@ =~= old(self)@.drop_first());
            }
            Some(s)
        }
    }

    /// Removes and returns the last segment.
    pub fn pop_back(&mut self) -> (r: Option<Identifier>)
        ensures
            old(self)@.len() == 0 ==> r is None && final(self)@ == old(self)@,
            old(self)@.len() > 0 ==> (r matches Some(s) && s@ == old(self)@.last() && final(self)@
                == old(self)@.drop_last()),
    {
        let r = self.segments.pop();
        proof {
            if old(self)@.len() > 0 {
                assert(self@ =~= old(self)@.drop_last());
            } else {
                assert(self@ =~= old(self)@);
            }
        }
        r
    }

    /// This path without its first segment; the empty path stays empty.
    pub fn without_first(self) -> (r: Path)
        ensures
            self@.len() == 0 ==> r@ == self@,
            self@.len() > 0 ==> r@ == self@.drop_first(),
    {
        let mut p = self;
        let _ = p.pop_front();
        p
    }

    /// This path without its last segment; the empty path stays empty.
    pub fn without_last(self) -> (r: Path)
        ensures
            self@.len() == 0 ==> r@ == self@,
            self@.len() > 0 ==> r@ == self@.drop_last(),
    {
        let mut p = self;
        let _ = p.pop_back();
        p
    }

    /// The first segment, if any.
    pub fn first(&self) -> (r: Option<&Identifier>)
        ensures
            self@.len() == 0 ==> r is None,
            self@.len() > 0 ==> (r matches Some(s) && s@ == self@[0]),
    {
        if self.segments.len() == 0 {
            None
        } else {
            Some(&self.segments[0])
        }
    }

    /// The last segment, if any.
    pub fn last(&self) -> (r: Option<&Identifier>)
        ensures
            self@.len() == 0 ==> r is None,
            self@.len() > 0 ==> (r matches Some(s) && s@ == self@.last()),
    {
        if self.segments.len() == 0 {
            None
        } else {
            Some(&self.segments[self.segments.len() - 1])
        }
    }

    /// Number of segments.
    pub fn len(&self) -> (r: usize)
        ensures
            r == self@.len(),
    {
        self.segments.len()
    }

    /// Whether this path has no segments.
    pub fn is_empty(&self) -> (r: bool)
        ensures
            r == (self@.len() == 0),
    {
        self.segments.len() == 0
    }
}

impl Clone for Path {
    fn clone(&self) -> (r: Self)
        ensures
            r.segments@ == self.segments@,
            r@ == self@,
    {
        let r = Path { segments: self.segments.clone() };
        proof {
            assert(r.segments@ =~= self.segments@);
        }
        r
    }
}

impl PartialEq for Path {
    fn eq(&self, other: &Self) -> (r: bool) {
        let r = self.segments == other.segments;
        proof {
            if r {
                assert(self@ =~= other@);
            } else {
                if self@ == other@ {
                    assert(self.segments@.len() == self@.len());
                    assert forall|i: int| 0 <= i < self.segments@.len() implies self.segments@[i]@
                        == other.segments@[i]@ by {
                        assert(self@[i] == other@[i]);
                    }
                }
            }
        }
        r
    }
}

impl vstd::std_specs::cmp::PartialEqSpecImpl for Path {
    open spec fn obeys_eq_spec() -> bool {
        true
    }

    open spec fn eq_spec(&self, other: &Path) -> bool {
        self@ == other@
    }
}

/// Lexicographic order on paths: segment by segment, each segment by its
/// name's characters.
pub open spec fn path_le(a: Seq<Seq<char>>, b: Seq<Seq<char>>) -> bool
    decreases a.len(),
{
    if a.len() == 0 {
        true
    } else if b.len() == 0 {
        false
    } else if a[0] != b[0] {
        lex_le(a[0], b[0])
    } else {
        path_le(a.drop_first(), b.drop_first())
    }
}

pub proof fn lemma_path_le_reflexive(a: Seq<Seq<char>>)
    ensures
        path_le(a, a),
    decreases a.len(),
{
    if a.len() > 0 {
        lemma_path_le_reflexive(a.drop_first());
    }
}

pub proof fn lemma_path_le_total(a: Seq<Seq<char>>, b: Seq<Seq<char>>)
    ensures
        path_le(a, b) || path_le(b, a),
    decreases a.len(),
{
    if a.len() != 0 && b.len() != 0 {
        if a[0] != b[0] {
            lemma_lex_le_total(a[0], b[0]);
        } else {
            lemma_path_le_total(a.drop_first(), b.drop_first());
        }
    }
}

pub proof fn lemma_path_le_antisymmetric(a: Seq<Seq<char>>, b: Seq<Seq<char>>)
    requires
        path_le(a, b),
        path_le(b, a),
    ensures
        a == b,
    decreases a.len(),
{
    if a.len() == 0 {
        assert(a =~= b);
    } else if a[0] != b[0] {
        lemma_lex_le_antisymmetric(a[0], b[0]);
    } else {
        lemma_path_le_antisymmetric(a.drop_first(), b.drop_first());
        assert(a.len() == b.len());
        assert forall|i: int| 0 <= i < a.len() implies a[i] == b[i] by {
            if i > 0 {
                assert(a[i] == a.drop_first()[i - 1]);
                assert(b[i] == b.drop_first()[i - 1]);
            }
        }
        assert(a =~= b);
    }
}

pub proof fn lemma_path_le_transitive(a: Seq<Seq<char>>, b: Seq<Seq<char>>, c: Seq<Seq<char>>)
    requires
        path_le(a, b),
        path_le(b, c),
    ensures
        path_le(a, c),
    decreases a.len(),
{
    if a.len() != 0 && b.len() != 0 && c.len() != 0 {
        if a[0] == b[0] && b[0] == c[0] {
            lemma_path_le_transitive(a.drop_first(), b.drop_first(), c.drop_first());
        } else if a[0] == b[0] {
            // heads a and b equal, b and c differ: order decided by the heads
        } else if b[0] == c[0] {
        } else {
            lemma_lex_le_transitive(a[0], b[0], c[0]);
            if a[0] == c[0] {
                lemma_lex_le_antisymmetric(a[0], b[0]);
            }
        }
    }
}

impl Path {
    /// Decides the path order used to sort object collections.
    pub fn le(&self, other: &Path) -> (r: bool)
        ensures
            r == path_le(self@, other@),
    {
        let a_len = self.segments.len();
        let b_len = other.segments.len();
        let mut i: usize = 0;
        proof {
            assert(self@.skip(0) =~= self@);
            assert(other@.skip(0) =~= other@);
        }
        loop
            invariant
                0 <= i <= a_len,
                i <= b_len,
                a_len == self@.len(),
                b_len == other@.len(),
                path_le(self@, other@) == path_le(self@.skip(i as int), other@.skip(i as int)),
            decreases a_len - i,
        {
            if i == a_len {
                return true;
            }
            if i == b_len {
                return false;
            }
            let sa = &self.segments[i];
            let sb = &other.segments[i];
            proof {
                assert(self@.skip(i as int)[0] == self@[i as int]);
                assert(other@.skip(i as int)[0] == other@[i as int]);
            }
            if !str_eq(sa.name.as_str(), sb.name.as_str()) {
                return str_lex_le(sa.name.as_str(), sb.name.as_str());
            }
            proof {
                assert(self@.skip(i as int).drop_first() =~= self@.skip(i + 1));
                assert(other@.skip(i as int).drop_first() =~= other@.skip(i + 1));
            }
            i += 1;
        }
    }
}

/// Joining paths is associative: the segment sequence of `p.join(q).join(r)`
/// and of `p.join(q.join(r))` is the same.
pub proof fn lemma_join_associative(p: Seq<Seq<char>>, q: Seq<Seq<char>>, r: Seq<Seq<char>>)
    ensures
        (p + q) + r == p + (q + r),
{
    assert((p + q) + r =~= p + (q + r));
}

} // verus!
