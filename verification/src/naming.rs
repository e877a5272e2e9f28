use vstd::prelude::*;
use vstd::string::*;
use crate::error::Error;

verus! {

/// A character a kebab-case name may hold: a lowercase ASCII letter, a
/// digit, or a hyphen.
pub open spec fn spec_is_kebab_char(c: char) -> bool {
    ||| ('a' <= c && c <= 'z')
    ||| ('0' <= c && c <= '9')
    ||| c == '-'
}

/// A name in kebab-case.
pub open spec fn spec_is_kebab(s: Seq<char>) -> bool {
    s.len() > 0 && forall|i: int| 0 <= i < s.len() ==> spec_is_kebab_char(#[trigger] s[i])
}

/// A kebab-case name: lowercase words separated by hyphens.
#[derive(Debug)]
pub struct KebabCase {
    name: String,
}

/// A snake_case name: lowercase words separated by underscores.
#[derive(Debug)]
pub struct SnakeCase {
    name: String,
}

/// The naming conventions a generator can ask for.
#[derive(Debug)]
pub enum NamingConvention {
    KebabCase(KebabCase),
    SnakeCase(SnakeCase),
}

impl KebabCase {
    /// Accepts exactly the names in kebab-case.
    pub fn try_from(naming: &str) -> (r: Result<KebabCase, Error>)
        ensures
            r is Ok <==> spec_is_kebab(naming@),
            r matches Ok(k) ==> k@ == naming@,
    {
        let n = naming.unicode_len();
        if n == 0 {
            return Err(Error::Message(String::from_str("not in kebab case")));
        }
        let mut i: usize = 0;
        while i < n
            invariant
                0 <= i <= n,
                n == naming@.len(),
                forall|j: int| 0 <= j < i ==> spec_is_kebab_char(#[trigger] naming@[j]),
            decreases n - i,
        {
            let c = naming.get_char(i);
            let ok = ('a' <= c && c <= 'z') || ('0' <= c && c <= '9') || c == '-';
            if !ok {
                return Err(Error::Message(String::from_str("not in kebab case")));
            }
            i += 1;
        }
        Ok(KebabCase { name: String::from_str(naming) })
    }

    /// The name's text.
    pub fn to_string(&self) -> (r: String)
        ensures
            r@ == self@,
    {
        self.name.clone()
    }

    /// The name, as the specification sees it.
    pub closed spec fn view(&self) -> Seq<char> {
        self.name@
    }
}

/// A name after hyphens become underscores.
pub open spec fn spec_snaked(s: Seq<char>) -> Seq<char> {
    s.map_values(
        |c: char|
            if c == '-' {
                '_'
            } else {
                c
            },
    )
}

impl SnakeCase {
    /// Converts a kebab-case name: every hyphen becomes an underscore.
    pub fn from(name: KebabCase) -> (r: SnakeCase)
        ensures
            r@ == spec_snaked(name@),
    {
        let source = name.to_string();
        let text = source.as_str();
        let n = text.unicode_len();
        let mut out = String::new();
        let mut start: usize = 0;
        let mut i: usize = 0;
        while i < n
            invariant
                0 <= start <= i <= n,
                n == source@.len(),
                text@ == source@,
                out@ + source@.subrange(start as int, i as int) =~= spec_snaked(
                    source@.take(i as int),
                ),
                forall|j: int| start <= j < i ==> source@[j] != '-',
            decreases n - i,
        {
            let c = text.get_char(i);
            proof {
                assert(source@[i as int] == c);
                assert((out@ + source@.subrange(start as int, i as int)).len() == spec_snaked(
                    source@.take(i as int),
                ).len());
                assert(out@.len() == start as int);
            }
            if c == '-' {
                let piece = text.substring_char(start, i);
                out.append(piece);
                out.append("_");
                proof {
                    assert("_"@ =~= seq!['_']) by {
                        reveal_strlit("_");
                    }
                    assert(out@ + source@.subrange(i + 1, i + 1) =~= spec_snaked(
                        source@.take(i + 1),
                    ));
                }
                start = i + 1;
            } else {
                proof {
                    assert forall|x: int| 0 <= x < i + 1 implies #[trigger] (out@
                        + source@.subrange(start as int, i + 1))[x] == spec_snaked(
                        source@.take(i + 1),
                    )[x] by {
                        assert(source@.take(i + 1)[x] == source@[x]);
                        if x < start {
                            assert((out@ + source@.subrange(start as int, i + 1))[x] == out@[x]);
                            assert((out@ + source@.subrange(start as int, i as int))[x] == out@[x]);
                            assert(out@[x] == spec_snaked(source@.take(i as int))[x]);
                            assert(source@.take(i as int)[x] == source@[x]);
                        } else {
                            assert((out@ + source@.subrange(start as int, i + 1))[x]
                                == source@.subrange(start as int, i + 1)[x - start]);
                            assert(source@.subrange(start as int, i + 1)[x - start] == source@[x]);
                            assert(source@[x] != '-');
                        }
                    }
                    assert(out@ + source@.subrange(start as int, i + 1) =~= spec_snaked(
                        source@.take(i + 1),
                    ));
                }
            }
            i += 1;
        }
        let piece = text.substring_char(start, n);
        out.append(piece);
        proof {
            assert(source@.take(n as int) =~= source@);
            assert(out@ =~= spec_snaked(name@));
        }
        SnakeCase { name: out }
    }

    /// Takes a name as it stands.
    pub fn try_from(naming: &str) -> (r: Result<SnakeCase, Error>)
        ensures
            r matches Ok(k) && k@ == naming@,
    {
        Ok(SnakeCase { name: String::from_str(naming) })
    }

    /// Converts whichever convention the name arrives in.
    pub fn from_convention(name: NamingConvention) -> (r: SnakeCase)
        ensures
            name matches NamingConvention::KebabCase(k) ==> r@ == spec_snaked(k@),
            name matches NamingConvention::SnakeCase(s) ==> r@ == s@,
    {
        match name {
            NamingConvention::KebabCase(k) => SnakeCase::from(k),
            NamingConvention::SnakeCase(s) => s,
        }
    }

    /// The name's text.
    pub fn to_string(&self) -> (r: String)
        ensures
            r@ == self@,
    {
        self.name.clone()
    }

    /// The name, as the specification sees it.
    pub closed spec fn view(&self) -> Seq<char> {
        self.name@
    }
}

} // verus!
