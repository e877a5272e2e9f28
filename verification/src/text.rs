use vstd::prelude::*;
use vstd::string::*;

verus! {

/// Character-by-character equality of two string slices.
pub fn str_eq(a: &str, b: &str) -> (r: bool)
    ensures
        r == (a@ == b@),
{
    let a_len = a.unicode_len();
    let b_len = b.unicode_len();
    if a_len != b_len {
        return false;
    }
    let mut i: usize = 0;
    while i < a_len
        invariant
            0 <= i <= a_len,
            a_len == a@.len(),
            b_len == b@.len(),
            a_len == b_len,
            forall|j: int| 0 <= j < i ==> a@[j] == b@[j],
        decreases a_len - i,
    {
        if a.get_char(i) != b.get_char(i) {
            return false;
        }
        i += 1;
    }
    proof {
        assert(a@ =~= b@);
    }
    true
}

/// Two characters with the same code point are the same character.
pub proof fn lemma_char_eq(c: char, d: char)
    requires
        c as u32 == d as u32,
    ensures
        c == d,
{
}

/// Lexicographic order on character sequences, by code point.
pub open spec fn lex_le(a: Seq<char>, b: Seq<char>) -> bool
    decreases a.len(),
{
    if a.len() == 0 {
        true
    } else if b.len() == 0 {
        false
    } else if (a[0] as u32) < (b[0] as u32) {
        true
    } else if (b[0] as u32) < (a[0] as u32) {
        false
    } else {
        lex_le(a.drop_first(), b.drop_first())
    }
}

pub proof fn lemma_lex_le_total(a: Seq<char>, b: Seq<char>)
    ensures
        lex_le(a, b) || lex_le(b, a),
    decreases a.len(),
{
    if a.len() != 0 && b.len() != 0 && !((a[0] as u32) < (b[0] as u32)) && !((b[0] as u32) < (
    a[0] as u32)) {
        lemma_lex_le_total(a.drop_first(), b.drop_first());
    }
}

pub proof fn lemma_lex_le_antisymmetric(a: Seq<char>, b: Seq<char>)
    requires
        lex_le(a, b),
        lex_le(b, a),
    ensures
        a == b,
    decreases a.len(),
{
    if a.len() == 0 {
        assert(b.len() == 0);
        assert(a =~= b);
    } else {
        lemma_char_eq(a[0], b[0]);
        lemma_lex_le_antisymmetric(a.drop_first(), b.drop_first());
        assert(a.drop_first().len() == b.drop_first().len());
        assert(a.len() == b.len());
        assert forall|i: int| 0 <= i < a.len() implies a[i] == b[i] by {
            if i > 0 {
                assert(a[i] == a.drop_first()[i - 1]);
                assert(b[i] == b.drop_first()[i - 1]);
            }
        }
        assert(a =~= b);
    }
}

pub proof fn lemma_lex_le_transitive(a: Seq<char>, b: Seq<char>, c: Seq<char>)
    requires
        lex_le(a, b),
        lex_le(b, c),
    ensures
        lex_le(a, c),
    decreases a.len(),
{
    if a.len() != 0 && b.len() != 0 && c.len() != 0 {
        if !((a[0] as u32) < (b[0] as u32)) && !((b[0] as u32) < (a[0] as u32)) && !((
        b[0] as u32) < (c[0] as u32)) && !((c[0] as u32) < (b[0] as u32)) {
            lemma_lex_le_transitive(a.drop_first(), b.drop_first(), c.drop_first());
        }
    }
}

/// Decides `lex_le` on two string slices.
pub fn str_lex_le(a: &str, b: &str) -> (r: bool)
    ensures
        r == lex_le(a@, b@),
{
    let a_len = a.unicode_len();
    let b_len = b.unicode_len();
    let mut i: usize = 0;
    proof {
        assert(a@.skip(0) =~= a@);
        assert(b@.skip(0) =~= b@);
    }
    loop
        invariant
            0 <= i <= a_len,
            i <= b_len,
            a_len == a@.len(),
            b_len == b@.len(),
            lex_le(a@, b@) == lex_le(a@.skip(i as int), b@.skip(i as int)),
        decreases a_len - i,
    {
        if i == a_len {
            return true;
        }
        if i == b_len {
            return false;
        }
        let ca = a.get_char(i);
        let cb = b.get_char(i);
        proof {
            assert(a@.skip(i as int)[0] == ca);
            assert(b@.skip(i as int)[0] == cb);
        }
        if ca != cb {
            return (ca as u32) < (cb as u32);
        }
        proof {
            assert(a@.skip(i as int).drop_first() =~= a@.skip(i + 1));
            assert(b@.skip(i as int).drop_first() =~= b@.skip(i + 1));
        }
        i += 1;
    }
}

} // verus!
