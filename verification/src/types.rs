use vstd::prelude::*;
use vstd::string::*;
use crate::identifier::Identifier;
use crate::path::Path;
use crate::text::str_eq;

verus! {

/// Whether a binding or receiver may mutate what it refers to.
#[derive(Debug, Clone, Copy, PartialEq, Eq, Structural)]
pub enum Mutability {
    Constant,
    Mutable,
}

/// Whether a reference type is a borrow or a raw pointer.
#[derive(Debug, Clone, Copy, PartialEq, Eq, Structural)]
pub enum ReferenceKind {
    Borrow,
    Pointer,
}

/// A reference type: a borrow or pointer, with a mutability flag,
/// wrapping an inner type.
#[derive(Debug)]
pub struct Reference {
    pub kind: ReferenceKind,
    pub mutability: Mutability,
    pub type_: Box<Type>,
}

/// A type: either a named (path) type or a reference around another type.
#[derive(Debug)]
pub enum Type {
    Path(Path),
    Reference(Reference),
}

/// Structural equality of two types, comparing paths by their segment
/// names.
pub open spec fn type_eq(a: Type, b: Type) -> bool
    decreases a,
{
    match (a, b) {
        (Type::Path(p), Type::Path(q)) => p@ == q@,
        (Type::Reference(r), Type::Reference(s)) => {
            &&& r.kind == s.kind
            &&& r.mutability == s.mutability
            &&& type_eq(*r.type_, *s.type_)
        },
        _ => false,
    }
}

/// Type equality is symmetric.
pub proof fn lemma_type_eq_symmetric(a: Type, b: Type)
    requires
        type_eq(a, b),
    ensures
        type_eq(b, a),
    decreases a,
{
    match (a, b) {
        (Type::Reference(r), Type::Reference(s)) => {
            lemma_type_eq_symmetric(*r.type_, *s.type_);
        },
        _ => {},
    }
}

/// Type equality is reflexive.
pub proof fn lemma_type_eq_reflexive(a: Type)
    ensures
        type_eq(a, a),
    decreases a,
{
    match a {
        Type::Reference(r) => {
            lemma_type_eq_reflexive(*r.type_);
        },
        _ => {},
    }
}

/// `t` is the path type of exactly one segment called `name`.
pub open spec fn is_named_type(t: Type, name: Seq<char>) -> bool {
    t matches Type::Path(p) && p@ == seq![name]
}

pub open spec fn spec_is_boolean(t: Type) -> bool {
    is_named_type(t, "bool"@)
}

pub open spec fn spec_is_character(t: Type) -> bool {
    is_named_type(t, "char"@)
}

pub open spec fn spec_is_integer(t: Type) -> bool {
    ||| is_named_type(t, "i8"@)
    ||| is_named_type(t, "i16"@)
    ||| is_named_type(t, "i32"@)
    ||| is_named_type(t, "i64"@)
    ||| is_named_type(t, "i128"@)
}

pub open spec fn spec_is_unsigned_integer(t: Type) -> bool {
    ||| is_named_type(t, "u8"@)
    ||| is_named_type(t, "u16"@)
    ||| is_named_type(t, "u32"@)
    ||| is_named_type(t, "u64"@)
    ||| is_named_type(t, "u128"@)
}

pub open spec fn spec_is_float(t: Type) -> bool {
    ||| is_named_type(t, "f32"@)
    ||| is_named_type(t, "f64"@)
    ||| is_named_type(t, "f128"@)
}

pub open spec fn spec_is_primitive(t: Type) -> bool {
    ||| spec_is_boolean(t)
    ||| spec_is_character(t)
    ||| spec_is_float(t)
    ||| spec_is_integer(t)
    ||| spec_is_unsigned_integer(t)
}

impl Type {
    /// A path type with the given single-segment name.
    pub fn named(name: &str) -> (r: Self)
        ensures
            is_named_type(r, name@),
    {
        Type::Path(Path::from_name(name))
    }

    /// The canonical opaque type.
    pub fn opaque() -> (r: Self)
        ensures
            is_named_type(r, "opaque"@),
    {
        Self::named("opaque")
    }

    /// The canonical boolean type.
    pub fn boolean() -> (r: Self)
        ensures
            is_named_type(r, "bool"@),
    {
        Self::named("bool")
    }

    /// The canonical character type.
    pub fn character() -> (r: Self)
        ensures
            is_named_type(r, "char"@),
    {
        Self::named("char")
    }

    /// The canonical 8-bit signed integer type.
    pub fn i8() -> (r: Self)
        ensures
            is_named_type(r, "i8"@),
    {
        Self::named("i8")
    }

    /// The canonical 16-bit signed integer type.
    pub fn i16() -> (r: Self)
        ensures
            is_named_type(r, "i16"@),
    {
        Self::named("i16")
    }

    /// The canonical 32-bit signed integer type.
    pub fn i32() -> (r: Self)
        ensures
            is_named_type(r, "i32"@),
    {
        Self::named("i32")
    }

    /// The canonical 64-bit signed integer type.
    pub fn i64() -> (r: Self)
        ensures
            is_named_type(r, "i64"@),
    {
        Self::named("i64")
    }

    /// The canonical 128-bit signed integer type.
    pub fn i128() -> (r: Self)
        ensures
            is_named_type(r, "i128"@),
    {
        Self::named("i128")
    }

    /// The canonical pointer-sized signed integer type.
    pub fn isize() -> (r: Self)
        ensures
            is_named_type(r, "isize"@),
    {
        Self::named("isize")
    }

    /// The canonical 8-bit unsigned integer type.
    pub fn u8() -> (r: Self)
        ensures
            is_named_type(r, "u8"@),
    {
        Self::named("u8")
    }

    /// The canonical 16-bit unsigned integer type.
    pub fn u16() -> (r: Self)
        ensures
            is_named_type(r, "u16"@),
    {
        Self::named("u16")
    }

    /// The canonical 32-bit unsigned integer type.
    pub fn u32() -> (r: Self)
        ensures
            is_named_type(r, "u32"@),
    {
        Self::named("u32")
    }

    /// The canonical 64-bit unsigned integer type.
    pub fn u64() -> (r: Self)
        ensures
            is_named_type(r, "u64"@),
    {
        Self::named("u64")
    }

    /// The canonical 128-bit unsigned integer type.
    pub fn u128() -> (r: Self)
        ensures
            is_named_type(r, "u128"@),
    {
        Self::named("u128")
    }

    /// The canonical pointer-sized unsigned integer type.
    pub fn usize() -> (r: Self)
        ensures
            is_named_type(r, "usize"@),
    {
        Self::named("usize")
    }

    /// The canonical 16-bit floating-point type.
    pub fn float16() -> (r: Self)
        ensures
            is_named_type(r, "f16"@),
    {
        Self::named("f16")
    }

    /// The canonical 32-bit floating-point type.
    pub fn float32() -> (r: Self)
        ensures
            is_named_type(r, "f32"@),
    {
        Self::named("f32")
    }

    /// The canonical 64-bit floating-point type.
    pub fn float64() -> (r: Self)
        ensures
            is_named_type(r, "f64"@),
    {
        Self::named("f64")
    }

    /// The canonical 128-bit floating-point type.
    pub fn float128() -> (r: Self)
        ensures
            is_named_type(r, "f128"@),
    {
        Self::named("f128")
    }

    /// The canonical string type.
    pub fn string() -> (r: Self)
        ensures
            is_named_type(r, "String"@),
    {
        Self::named("String")
    }

    /// Structural equality with another type.
    pub fn equals(&self, other: &Type) -> (r: bool)
        ensures
            r == type_eq(*self, *other),
        decreases *self,
    {
        match (self, other) {
            (Type::Path(p), Type::Path(q)) => p == q,
            (Type::Reference(a), Type::Reference(b)) => {
                let kinds = match (a.kind, b.kind) {
                    (ReferenceKind::Borrow, ReferenceKind::Borrow) => true,
                    (ReferenceKind::Pointer, ReferenceKind::Pointer) => true,
                    _ => false,
                };
                let muts = match (a.mutability, b.mutability) {
                    (Mutability::Constant, Mutability::Constant) => true,
                    (Mutability::Mutable, Mutability::Mutable) => true,
                    _ => false,
                };
                kinds && muts && a.type_.equals(&b.type_)
            },
            _ => false,
        }
    }

    /// Structural equality, after converting the comparand with `Type::named`
    /// and friends at the call site.
    pub fn is(&self, other: &Type) -> (r: bool)
        ensures
            r == type_eq(*self, *other),
    {
        self.equals(other)
    }

    /// Whether this type names exactly `name`.
    fn is_named(&self, name: &str) -> (r: bool)
        ensures
            r == is_named_type(*self, name@),
    {
        match self {
            Type::Path(p) => {
                if p.segments.len() == 1 {
                    let r = str_eq(p.segments[0].name.as_str(), name);
                    proof {
                        if r {
                            assert(p@ =~= seq![name@]);
                        } else {
                            assert(p@[0] == p.segments@[0]@);
                        }
                    }
                    r
                } else {
                    false
                }
            },
            _ => false,
        }
    }

    /// Whether this is the canonical boolean type.
    pub fn is_boolean(&self) -> (r: bool)
        ensures
            r == spec_is_boolean(*self),
    {
        self.is_named("bool")
    }

    /// Whether this is the canonical character type.
    pub fn is_character(&self) -> (r: bool)
        ensures
            r == spec_is_character(*self),
    {
        self.is_named("char")
    }

    /// Whether this is a canonical signed integer type.
    pub fn is_integer(&self) -> (r: bool)
        ensures
            r == spec_is_integer(*self),
    {
        self.is_named("i8") || self.is_named("i16") || self.is_named("i32") || self.is_named("i64")
            || self.is_named("i128")
    }

    /// Whether this is a canonical unsigned integer type.
    pub fn is_unsigned_integer(&self) -> (r: bool)
        ensures
            r == spec_is_unsigned_integer(*self),
    {
        self.is_named("u8") || self.is_named("u16") || self.is_named("u32") || self.is_named("u64")
            || self.is_named("u128")
    }

    /// Whether this is a canonical floating-point type.
    pub fn is_float(&self) -> (r: bool)
        ensures
            r == spec_is_float(*self),
    {
        self.is_named("f32") || self.is_named("f64") || self.is_named("f128")
    }

    /// Whether this is a canonical number type.
    pub fn is_number(&self) -> (r: bool)
        ensures
            r == (spec_is_integer(*self) || spec_is_float(*self)),
    {
        self.is_integer() || self.is_float()
    }

    /// Whether this is the canonical string type.
    pub fn is_string(&self) -> (r: bool)
        ensures
            r == is_named_type(*self, "String"@),
    {
        self.is_named("String")
    }

    /// Whether this is one of the canonical primitive types.
    pub fn is_primitive(&self) -> (r: bool)
        ensures
            r == spec_is_primitive(*self),
    {
        self.is_boolean() || self.is_character() || self.is_float() || self.is_integer()
            || self.is_unsigned_integer()
    }

    /// Whether this type is a mutable reference.
    pub fn is_mutable_reference(&self) -> (r: bool)
        ensures
            r == (self matches Type::Reference(q) && q.mutability == Mutability::Mutable),
    {
        match self {
            Type::Reference(q) => match q.mutability {
                Mutability::Mutable => true,
                Mutability::Constant => false,
            },
            _ => false,
        }
    }

    /// A copy of this type.
    pub fn duplicate(&self) -> (r: Type)
        ensures
            type_eq(r, *self),
            type_eq(*self, r),
        decreases *self,
    {
        match self {
            Type::Path(p) => Type::Path(p.clone()),
            Type::Reference(q) => Type::Reference(
                Reference {
                    kind: q.kind,
                    mutability: q.mutability,
                    type_: Box::new(q.type_.duplicate()),
                },
            ),
        }
    }

    /// Unwraps a reference type to the type it refers to; any other type is
    /// returned as it is.
    pub fn drop_reference(&self) -> (r: Type)
        ensures
            match self {
                Type::Reference(q) => type_eq(r, *q.type_),
                Type::Path(_) => type_eq(r, *self),
            },
    {
        match self {
            Type::Reference(q) => q.type_.duplicate(),
            Type::Path(_) => self.duplicate(),
        }
    }
}

impl Clone for Type {
    fn clone(&self) -> (r: Self)
        ensures
            type_eq(r, *self),
    {
        self.duplicate()
    }
}

impl PartialEq for Type {
    fn eq(&self, other: &Self) -> (r: bool) {
        self.equals(other)
    }
}

impl vstd::std_specs::cmp::PartialEqSpecImpl for Type {
    open spec fn obeys_eq_spec() -> bool {
        true
    }

    open spec fn eq_spec(&self, other: &Type) -> bool {
        type_eq(*self, *other)
    }
}

impl Clone for Reference {
    fn clone(&self) -> (r: Self)
        ensures
            r.kind == self.kind,
            r.mutability == self.mutability,
            type_eq(*r.type_, *self.type_),
    {
        Reference { kind: self.kind, mutability: self.mutability, type_: Box::new(self.type_.duplicate()) }
    }
}

/// An identifier makes a single-segment path type.
impl Type {
    pub fn from_identifier(identifier: Identifier) -> (r: Type)
        ensures
            is_named_type(r, identifier@),
    {
        Type::Path(Path::from_identifier(identifier))
    }
}


/// Path segments joined with the scope separator.
pub open spec fn spec_joined_names(s: Seq<Seq<char>>, separator: Seq<char>) -> Seq<char>
    decreases s.len(),
{
    if s.len() == 0 {
        Seq::empty()
    } else if s.len() == 1 {
        s[0]
    } else {
        s[0] + separator + spec_joined_names(s.drop_first(), separator)
    }
}

/// The text a type renders to: its path joined with `::`, behind the
/// reference markers.
pub open spec fn spec_type_text(t: Type) -> Seq<char>
    decreases t,
{
    match t {
        Type::Path(p) => spec_joined_names(p@, "::"@),
        Type::Reference(r) => {
            let marker = match (r.kind, r.mutability) {
                (ReferenceKind::Borrow, Mutability::Constant) => "&"@,
                (ReferenceKind::Borrow, Mutability::Mutable) => "&mut "@,
                (ReferenceKind::Pointer, Mutability::Constant) => "*const "@,
                (ReferenceKind::Pointer, Mutability::Mutable) => "*mut "@,
            };
            marker + spec_type_text(*r.type_)
        },
    }
}

/// Joins name segments with a separator.
pub fn join_names(segments: &Vec<Identifier>, separator: &str) -> (r: String)
    ensures
        r@ == spec_joined_names(
            segments@.map_values(|s: Identifier| s@),
            separator@,
        ),
{
    let ghost names = segments@.map_values(|s: Identifier| s@);
    let mut out = String::new();
    let n = segments.len();
    let mut i: usize = 0;
    proof {
        assert(names.skip(0) =~= names);
    }
    while i < n
        invariant
            0 <= i <= n,
            n == names.len(),
            n == segments@.len(),
            names == segments@.map_values(|s: Identifier| s@),
            spec_joined_names(names, separator@) == out@ + spec_joined_names(
                names.skip(i as int),
                separator@,
            ),
        decreases n - i,
    {
        let ghost out0 = out@;
        proof {
            assert(names.skip(i as int)[0] == names[i as int]);
            assert(names.skip(i as int).drop_first() =~= names.skip(i + 1));
        }
        out.append(segments[i].name.as_str());
        if i + 1 < n {
            out.append(separator);
            proof {
                assert(names.skip(i as int).len() > 1);
                assert(spec_joined_names(names.skip(i as int), separator@) == names[i as int]
                    + separator@ + spec_joined_names(names.skip(i + 1), separator@));
                assert(out0 + (names[i as int] + separator@ + spec_joined_names(
                    names.skip(i + 1),
                    separator@,
                )) =~= out@ + spec_joined_names(names.skip(i + 1), separator@));
            }
        } else {
            proof {
                assert(names.skip(i as int).len() == 1);
                assert(spec_joined_names(names.skip(i as int), separator@) == names[i as int]);
                assert(spec_joined_names(names.skip(i + 1), separator@) =~= Seq::<char>::empty());
                assert(out0 + names[i as int] =~= out@ + spec_joined_names(
                    names.skip(i + 1),
                    separator@,
                ));
            }
        }
        i += 1;
    }
    proof {
        assert(spec_joined_names(names.skip(n as int), separator@) =~= Seq::<char>::empty());
        assert(out@ =~= spec_joined_names(names, separator@));
    }
    out
}

impl Type {
    /// The text this type renders to.
    pub fn to_text(&self) -> (r: String)
        ensures
            r@ == spec_type_text(*self),
        decreases *self,
    {
        match self {
            Type::Path(p) => join_names(&p.segments, "::"),
            Type::Reference(q) => {
                let mut out = match (q.kind, q.mutability) {
                    (ReferenceKind::Borrow, Mutability::Constant) => String::from_str("&"),
                    (ReferenceKind::Borrow, Mutability::Mutable) => String::from_str("&mut "),
                    (ReferenceKind::Pointer, Mutability::Constant) => String::from_str("*const "),
                    (ReferenceKind::Pointer, Mutability::Mutable) => String::from_str("*mut "),
                };
                let inner = q.type_.to_text();
                out.append(inner.as_str());
                out
            },
        }
    }
}

} // verus!
