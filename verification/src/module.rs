use vstd::prelude::*;
use crate::attribute::{Attribute, Attributes, attributes_eq, is_ignore_attribute, attribute_eq,
    lemma_attribute_seq_eq_index};
use crate::function::{Function, function_eq};
use crate::identifier::Identifier;
use crate::import::{Import, import_eq, spec_is_wildcard};
use crate::object::{Implementation, Object, object_eq, function_seq_eq,
    implementation_self_replaced, spec_object_visibility};
use crate::path::Path;
use crate::text::str_eq;
use crate::type_definition::{TypeDefinition, spec_definition_identifier, type_definition_eq,
    identifier_opt_eq};
use crate::types::Type;
use crate::visibility::Visibility;

verus! {

/// A module of the represented library: attributes, visibility, name,
/// imports, child modules, functions and objects.
#[derive(Debug)]
pub struct Module {
    pub attributes: Attributes,
    pub visibility: Visibility,
    pub name: Identifier,
    pub imports: Vec<Import>,
    pub modules: Vec<Module>,
    pub functions: Vec<Function>,
    pub objects: Vec<Object>,
}

pub open spec fn import_seq_eq(a: Seq<Import>, b: Seq<Import>) -> bool {
    a.len() == b.len() && forall|i: int| 0 <= i < a.len() ==> import_eq(#[trigger] a[i], b[i])
}

pub open spec fn object_seq_eq(a: Seq<Object>, b: Seq<Object>) -> bool {
    a.len() == b.len() && forall|i: int| 0 <= i < a.len() ==> object_eq(#[trigger] a[i], b[i])
}

/// Structural equality of two modules.
pub open spec fn module_eq(a: Module, b: Module) -> bool
    decreases a,
{
    &&& attributes_eq(a.attributes, b.attributes)
    &&& a.visibility == b.visibility
    &&& a.name@ == b.name@
    &&& import_seq_eq(a.imports@, b.imports@)
    &&& module_seq_eq(a.modules@, b.modules@)
    &&& function_seq_eq(a.functions@, b.functions@)
    &&& object_seq_eq(a.objects@, b.objects@)
}

/// Pairwise structural equality of two module sequences.
pub open spec fn module_seq_eq(a: Seq<Module>, b: Seq<Module>) -> bool
    decreases a,
{
    if a.len() != b.len() {
        false
    } else if a.len() == 0 {
        true
    } else {
        module_eq(a[0], b[0]) && module_seq_eq(a.drop_first(), b.drop_first())
    }
}

/// `module_seq_eq` holds exactly when the sequences match index by index.
pub proof fn lemma_module_seq_eq_index(a: Seq<Module>, b: Seq<Module>)
    ensures
        module_seq_eq(a, b) <==> (a.len() == b.len() && forall|i: int|
            0 <= i < a.len() ==> module_eq(#[trigger] a[i], b[i])),
    decreases a,
{
    if a.len() == b.len() && a.len() > 0 {
        lemma_module_seq_eq_index(a.drop_first(), b.drop_first());
        if module_seq_eq(a, b) {
            assert forall|i: int| 0 <= i < a.len() implies module_eq(#[trigger] a[i], b[i]) by {
                if i > 0 {
                    assert(a[i] == a.drop_first()[i - 1]);
                    assert(b[i] == b.drop_first()[i - 1]);
                }
            }
        } else {
            if a.len() == b.len() && forall|i: int|
                0 <= i < a.len() ==> module_eq(#[trigger] a[i], b[i]) {
                assert forall|i: int|
                    0 <= i < a.drop_first().len() implies module_eq(
                    #[trigger] a.drop_first()[i],
                    b.drop_first()[i],
                ) by {
                    assert(a.drop_first()[i] == a[i + 1]);
                    assert(b.drop_first()[i] == b[i + 1]);
                }
                assert(module_eq(a[0], b[0]));
            }
        }
    }
}

/// The attribute list carries the "ignore" directive.
pub open spec fn spec_is_ignored(attributes: Attributes) -> bool {
    exists|i: int|
        0 <= i < attributes.attributes@.len() && is_ignore_attribute(
            #[trigger] attributes.attributes@[i],
        )
}

/// First child of `s` whose name is `name`.
pub open spec fn spec_find_child(s: Seq<Module>, name: Seq<char>) -> Option<Module>
    decreases s.len(),
{
    if s.len() == 0 {
        None
    } else if s[0].name@ == name {
        Some(s[0])
    } else {
        spec_find_child(s.drop_first(), name)
    }
}

/// The module reached from a child list by following `path`, one child
/// per segment; `None` on the first missing segment, and for the empty
/// path.
pub open spec fn spec_find_in(modules: Seq<Module>, path: Seq<Seq<char>>) -> Option<Module>
    decreases path.len(),
{
    if path.len() == 0 {
        None
    } else {
        match spec_find_child(modules, path[0]) {
            None => None,
            Some(child) => if path.len() == 1 {
                Some(child)
            } else {
                spec_find_in(child.modules@, path.drop_first())
            },
        }
    }
}

/// The module reached from `m` by following `path`.
pub open spec fn spec_find_module(m: Module, path: Seq<Seq<char>>) -> Option<Module> {
    spec_find_in(m.modules@, path)
}

/// First object of `s` whose definition declares `name`; its definition.
pub open spec fn spec_find_object_definition(s: Seq<Object>, name: Seq<char>) -> Option<
    TypeDefinition,
>
    decreases s.len(),
{
    if s.len() == 0 {
        None
    } else if spec_definition_identifier(s[0].definition) == name {
        Some(s[0].definition)
    } else {
        spec_find_object_definition(s.drop_first(), name)
    }
}

/// The definition `path` addresses from `m`: the path must start with
/// `m`'s own name; one further segment names an object of `m`; more
/// segments descend into the child modules.
pub open spec fn spec_find_definition(m: Module, path: Seq<Seq<char>>) -> Option<TypeDefinition>
    decreases m,
{
    if path.len() == 0 {
        None
    } else if path[0] != m.name@ {
        None
    } else {
        let rest = path.drop_first();
        if rest.len() > 1 {
            spec_find_definition_in_children(m.modules@, rest)
        } else if rest.len() == 1 {
            spec_find_object_definition(m.objects@, rest[0])
        } else {
            None
        }
    }
}

/// First definition any child module resolves `path` to.
pub open spec fn spec_find_definition_in_children(s: Seq<Module>, path: Seq<Seq<char>>) -> Option<
    TypeDefinition,
>
    decreases s,
{
    if s.len() == 0 {
        None
    } else {
        match spec_find_definition(s[0], path) {
            Some(d) => Some(d),
            None => spec_find_definition_in_children(s.drop_first(), path),
        }
    }
}

impl Module {
    /// Builds an empty module with the given name.
    pub fn new(name: Identifier) -> (r: Module)
        ensures
            r.name == name,
            r.attributes.attributes@.len() == 0,
            r.visibility == Visibility::Public,
            r.imports@.len() == 0,
            r.modules@.len() == 0,
            r.functions@.len() == 0,
            r.objects@.len() == 0,
    {
        Module {
            attributes: Attributes::empty(),
            visibility: Visibility::Public,
            name,
            imports: Vec::new(),
            modules: Vec::new(),
            functions: Vec::new(),
            objects: Vec::new(),
        }
    }

    /// Whether an attribute list carries the "ignore" directive.
    pub fn ignored_from_attributes(attributes: &Attributes) -> (r: bool)
        ensures
            r == spec_is_ignored(*attributes),
    {
        let mut inner = Attributes::empty();
        inner.push(Attribute::Group(Identifier::new("ignore"), Attributes::empty()));
        let probe = Attribute::Group(Identifier::new("ligen"), inner);
        proof {
            assert forall|x: Attribute| attribute_eq(x, probe) == is_ignore_attribute(x) by {
                match x {
                    Attribute::Group(id, g) => {
                        lemma_attribute_seq_eq_index(
                            g.attributes@,
                            probe->Group_1.attributes@,
                        );
                    },
                    _ => {},
                }
            }
        }
        attributes.contains(&probe)
    }

    /// Whether generators are told to ignore this module.
    pub fn ignored(&self) -> (r: bool)
        ensures
            r == spec_is_ignored(self.attributes),
    {
        Module::ignored_from_attributes(&self.attributes)
    }

    /// First child module with the given name.
    fn find_child(&self, name: &str) -> (r: Option<&Module>)
        ensures
            match r {
                Some(m) => spec_find_child(self.modules@, name@) == Some(*m),
                None => spec_find_child(self.modules@, name@) is None,
            },
    {
        find_child_in(&self.modules, name)
    }

    /// Resolves `path` to a descendant module, one child per segment.
    pub fn find_module(&self, path: &Path) -> (r: Option<&Module>)
        ensures
            match r {
                Some(m) => spec_find_module(*self, path@) == Some(*m),
                None => spec_find_module(*self, path@) is None,
            },
    {
        find_in_modules(&self.modules, path)
    }

    /// First object definition declaring `name`, as a copy.
    fn find_object_definition(&self, name: &str) -> (r: Option<TypeDefinition>)
        ensures
            match r {
                Some(d) => spec_find_object_definition(self.objects@, name@) matches Some(d0)
                    && type_definition_eq(d, d0),
                None => spec_find_object_definition(self.objects@, name@) is None,
            },
    {
        let n = self.objects.len();
        let mut i: usize = 0;
        proof {
            assert(self.objects@.skip(0) =~= self.objects@);
        }
        loop
            invariant
                0 <= i <= n,
                n == self.objects@.len(),
                spec_find_object_definition(self.objects@, name@) == spec_find_object_definition(
                    self.objects@.skip(i as int),
                    name@,
                ),
            decreases n - i,
        {
            if i == n {
                return None;
            }
            proof {
                assert(self.objects@.skip(i as int)[0] == self.objects@[i as int]);
            }
            if str_eq(self.objects[i].definition.identifier().name.as_str(), name) {
                return Some(self.objects[i].definition.duplicate());
            }
            proof {
                assert(self.objects@.skip(i as int).drop_first() =~= self.objects@.skip(i + 1));
            }
            i += 1;
        }
    }

    /// Resolves `path` to a type definition, as a copy: the path names
    /// this module first, then descends.
    pub fn find_definition(&self, path: &Path) -> (r: Option<TypeDefinition>)
        ensures
            match r {
                Some(d) => spec_find_definition(*self, path@) matches Some(d0)
                    && type_definition_eq(d, d0),
                None => spec_find_definition(*self, path@) is None,
            },
        decreases *self,
    {
        let n = path.segments.len();
        if n == 0 {
            return None;
        }
        if !str_eq(path.segments[0].name.as_str(), self.name.name.as_str()) {
            return None;
        }
        proof {
            assert(path@[0] == self.name@);
        }
        if n > 2 {
            // descend into the children with the remaining segments
            let rest = self.rest_of(path);
            proof {
                assert(rest@ =~= path@.drop_first());
            }
            let m = self.modules.len();
            let mut i: usize = 0;
            proof {
                assert(self.modules@.skip(0) =~= self.modules@);
            }
            loop
                invariant
                    0 <= i <= m,
                    m == self.modules@.len(),
                    rest@ == path@.drop_first(),
                    rest@.len() > 1,
                    spec_find_definition_in_children(self.modules@, rest@)
                        == spec_find_definition_in_children(self.modules@.skip(i as int), rest@),
                    spec_find_definition(*self, path@) == spec_find_definition_in_children(
                        self.modules@,
                        rest@,
                    ),
                decreases m - i,
            {
                if i == m {
                    return None;
                }
                proof {
                    assert(self.modules@.skip(i as int)[0] == self.modules@[i as int]);
                }
                let found = self.modules[i].find_definition(&rest);
                match found {
                    Some(d) => {
                        return Some(d);
                    },
                    None => {},
                }
                proof {
                    assert(self.modules@.skip(i as int).drop_first() =~= self.modules@.skip(i + 1));
                }
                i += 1;
            }
        } else if n == 2 {
            proof {
                assert(path@.drop_first().len() == 1);
                assert(path@.drop_first()[0] == path@[1]);
            }
            self.find_object_definition(path.segments[1].name.as_str())
        } else {
            proof {
                assert(path@.drop_first().len() == 0);
            }
            None
        }
    }

    /// The path without its first segment, as a fresh value.
    fn rest_of(&self, path: &Path) -> (r: Path)
        requires
            path@.len() > 0,
        ensures
            r@ == path@.drop_first(),
    {
        let n = path.segments.len();
        let mut segments: Vec<Identifier> = Vec::new();
        let mut i: usize = 1;
        while i < n
            invariant
                1 <= i <= n,
                n == path.segments@.len(),
                segments@.len() == i - 1,
                forall|j: int| 0 <= j < i - 1 ==> #[trigger] segments@[j]@ == path@[j + 1],
            decreases n - i,
        {
            segments.push(path.segments[i].clone());
            i += 1;
        }
        let r = Path { segments };
        proof {
            assert(r@ =~= path@.drop_first());
        }
        r
    }

    /// The name an implementation block's self type binds `Self` to: the
    /// last segment of its path, through any references.
    fn owner_name(implementation: &Implementation) -> (r: Option<String>)
        ensures
            match r {
                Some(s) => crate::module::spec_type_key(implementation.self_).len() > 0 && s@
                    == crate::module::spec_type_key(implementation.self_).last(),
                None => crate::module::spec_type_key(implementation.self_).len() == 0,
            },
    {
        let mut t: &Type = &implementation.self_;
        loop
            invariant
                spec_type_key(*t) == spec_type_key(implementation.self_),
            decreases *t,
        {
            match t {
                Type::Path(p) => {
                    if p.segments.len() == 0 {
                        return None;
                    }
                    return Some(p.segments[p.segments.len() - 1].name.clone());
                },
                Type::Reference(q) => {
                    t = &q.type_;
                },
            }
        }
    }

    /// Rewrites `Self` to each object's concrete name in every
    /// implementation block, here and in all child modules.
    pub fn replace_self_with_explicit_names(&mut self)
        ensures
            module_self_replaced(*old(self), *final(self)),
    {
        let mut tmp = Module::new(Identifier::new(""));
        core::mem::swap(self, &mut tmp);
        let replaced = Module::self_replaced(tmp);
        *self = replaced;
    }

    /// The module with `Self` rewritten everywhere, by value.
    fn self_replaced(m: Module) -> (r: Module)
        ensures
            module_self_replaced(m, r),
        decreases m,
    {
        let Module { attributes, visibility, name, imports, modules, functions, objects } = m;
        let mut modules = modules;
        let n = modules.len();
        let mut new_modules: Vec<Module> = Vec::new();
        let mut i: usize = 0;
        proof {
            assert(modules@ =~= m.modules@.skip(0));
        }
        while i < n
            invariant
                0 <= i <= n,
                n == m.modules@.len(),
                modules@ =~= m.modules@.skip(i as int),
                new_modules@.len() == i,
                forall|j: int| 0 <= j < i ==> module_self_replaced(
                    #[trigger] m.modules@[j],
                    new_modules@[j],
                ),
            decreases n - i,
        {
            let child = modules.remove(0);
            proof {
                assert(child == m.modules@[i as int]);
                assert(decreases_to!(m => m.modules@[i as int]));
            }
            let child = Module::self_replaced(child);
            new_modules.push(child);
            proof {
                assert(modules@ =~= m.modules@.skip(i + 1));
            }
            i += 1;
        }
        let mut objects = objects;
        let c = objects.len();
        let mut new_objects: Vec<Object> = Vec::new();
        let mut k: usize = 0;
        proof {
            assert(objects@ =~= m.objects@.skip(0));
        }
        while k < c
            invariant
                0 <= k <= c,
                c == m.objects@.len(),
                objects@ =~= m.objects@.skip(k as int),
                new_objects@.len() == k,
                forall|j: int| 0 <= j < k ==> object_self_replaced(
                    #[trigger] m.objects@[j],
                    new_objects@[j],
                ),
            decreases c - k,
        {
            let mut object = objects.remove(0);
            proof {
                assert(object == m.objects@[k as int]);
            }
            let w = object.implementations.len();
            let ghost object0 = object;
            let mut p: usize = 0;
            while p < w
                invariant
                    0 <= p <= w,
                    w == object0.implementations@.len(),
                    object.implementations@.len() == w,
                    object.path == object0.path,
                    object.definition == object0.definition,
                    forall|j: int| p <= j < w ==> object.implementations@[j]
                        == object0.implementations@[j],
                    forall|j: int| 0 <= j < p ==> one_implementation_self_replaced(
                        #[trigger] object0.implementations@[j],
                        object.implementations@[j],
                    ),
                decreases w - p,
            {
                let mut implementation = object.implementations.remove(p);
                proof {
                    assert(implementation == object0.implementations@[p as int]);
                }
                let name = Module::owner_name(&implementation);
                match name {
                    Some(name) => {
                        implementation.replace_self_with_name(name.as_str());
                    },
                    None => {},
                }
                object.implementations.insert(p, implementation);
                p += 1;
            }
            new_objects.push(object);
            proof {
                assert(objects@ =~= m.objects@.skip(k + 1));
            }
            k += 1;
        }
        Module {
            attributes,
            visibility,
            name,
            imports,
            modules: new_modules,
            functions,
            objects: new_objects,
        }
    }
}

/// First module of the list with the given name.
fn find_child_in<'a>(modules: &'a Vec<Module>, name: &str) -> (r: Option<&'a Module>)
    ensures
        match r {
            Some(m) => spec_find_child(modules@, name@) == Some(*m),
            None => spec_find_child(modules@, name@) is None,
        },
{
    let n = modules.len();
    let mut i: usize = 0;
    proof {
        assert(modules@.skip(0) =~= modules@);
    }
    loop
        invariant
            0 <= i <= n,
            n == modules@.len(),
            spec_find_child(modules@, name@) == spec_find_child(modules@.skip(i as int), name@),
        decreases n - i,
    {
        if i == n {
            return None;
        }
        proof {
            assert(modules@.skip(i as int)[0] == modules@[i as int]);
        }
        if str_eq(modules[i].name.name.as_str(), name) {
            return Some(&modules[i]);
        }
        proof {
            assert(modules@.skip(i as int).drop_first() =~= modules@.skip(i + 1));
        }
        i += 1;
    }
}

/// Resolves `path` against a list of child modules, one per segment.
fn find_in_modules<'a>(modules: &'a Vec<Module>, path: &Path) -> (r: Option<&'a Module>)
    ensures
        match r {
            Some(m) => spec_find_in(modules@, path@) == Some(*m),
            None => spec_find_in(modules@, path@) is None,
        },
{
    let n = path.segments.len();
    if n == 0 {
        return None;
    }
    let mut current: &Vec<Module> = modules;
    let mut i: usize = 0;
    proof {
        assert(path@.skip(0) =~= path@);
    }
    loop
        invariant
            0 <= i < n,
            n == path@.len(),
            spec_find_in(modules@, path@) == spec_find_in(current@, path@.skip(i as int)),
        decreases n - i,
    {
        proof {
            assert(path@.skip(i as int)[0] == path@[i as int]);
        }
        let child = match find_child_in(current, path.segments[i].name.as_str()) {
            Some(child) => child,
            None => {
                return None;
            },
        };
        if i == n - 1 {
            return Some(child);
        }
        proof {
            assert(path@.skip(i as int).drop_first() =~= path@.skip(i + 1));
        }
        current = &child.modules;
        i += 1;
    }
}

/// The path of segment names behind any references of a type.
pub open spec fn spec_type_key(t: Type) -> Seq<Seq<char>>
    decreases t,
{
    match t {
        Type::Path(p) => p@,
        Type::Reference(r) => spec_type_key(*r.type_),
    }
}

/// One implementation block after the `Self` rewrite: rewritten with the
/// last segment of its self type, or untouched when that type has no
/// path.
pub open spec fn one_implementation_self_replaced(a: Implementation, b: Implementation) -> bool {
    if spec_type_key(a.self_).len() > 0 {
        implementation_self_replaced(a, b, spec_type_key(a.self_).last())
    } else {
        b == a
    }
}

/// One object after the `Self` rewrite: every implementation rewritten,
/// the rest untouched.
pub open spec fn object_self_replaced(a: Object, b: Object) -> bool {
    &&& b.path == a.path
    &&& b.definition == a.definition
    &&& a.implementations@.len() == b.implementations@.len()
    &&& forall|i: int| 0 <= i < a.implementations@.len() ==> one_implementation_self_replaced(
        #[trigger] a.implementations@[i],
        b.implementations@[i],
    )
}

/// A module after the `Self` rewrite: objects rewritten here and in all
/// child modules, everything else untouched.
pub open spec fn module_self_replaced(a: Module, b: Module) -> bool
    decreases a,
{
    &&& b.attributes == a.attributes
    &&& b.visibility == a.visibility
    &&& b.name == a.name
    &&& b.imports == a.imports
    &&& b.functions == a.functions
    &&& a.modules@.len() == b.modules@.len()
    &&& (forall|i: int| 0 <= i < a.modules@.len() ==> module_self_replaced(
        #[trigger] a.modules@[i],
        b.modules@[i],
    ))
    &&& a.objects@.len() == b.objects@.len()
    &&& (forall|i: int| 0 <= i < a.objects@.len() ==> object_self_replaced(
        #[trigger] a.objects@[i],
        b.objects@[i],
    ))
}


// --- wildcard import expansion ---

/// The non-wildcard imports of a list, in order.
pub open spec fn spec_nonwildcard(s: Seq<Import>) -> Seq<Import>
    decreases s.len(),
{
    if s.len() == 0 {
        Seq::empty()
    } else if spec_is_wildcard(s[0]) {
        spec_nonwildcard(s.drop_first())
    } else {
        seq![s[0]] + spec_nonwildcard(s.drop_first())
    }
}

/// The wildcard imports of a list, in order.
pub open spec fn spec_wildcards(s: Seq<Import>) -> Seq<Import>
    decreases s.len(),
{
    if s.len() == 0 {
        Seq::empty()
    } else if spec_is_wildcard(s[0]) {
        seq![s[0]] + spec_wildcards(s.drop_first())
    } else {
        spec_wildcards(s.drop_first())
    }
}

/// The names a module exports to a wildcard import: its public objects'
/// identifiers, then the visible names of its public imports.
pub open spec fn spec_exports(m: Module) -> Seq<Seq<char>> {
    spec_object_exports(m.objects@) + spec_import_exports(m.imports@)
}

pub open spec fn spec_object_exports(s: Seq<Object>) -> Seq<Seq<char>>
    decreases s.len(),
{
    if s.len() == 0 {
        Seq::empty()
    } else if spec_object_visibility(s[0]) == Visibility::Public {
        seq![crate::object::spec_object_identifier(s[0])] + spec_object_exports(s.drop_first())
    } else {
        spec_object_exports(s.drop_first())
    }
}

/// The name a public import makes visible: its renaming when present,
/// else its last segment; an empty unrenamed path offers nothing.
pub open spec fn spec_import_exports(s: Seq<Import>) -> Seq<Seq<char>>
    decreases s.len(),
{
    if s.len() == 0 {
        Seq::empty()
    } else {
        let rest = spec_import_exports(s.drop_first());
        if s[0].visibility == Visibility::Public {
            match s[0].renaming {
                Some(r) => seq![r@] + rest,
                None => if s[0].path@.len() > 0 {
                    seq![s[0].path@.last()] + rest
                } else {
                    rest
                },
            }
        } else {
            rest
        }
    }
}

/// `out` is the import a wildcard `w` synthesizes for one exported name:
/// the wildcard's own attributes, visibility and renaming, with the
/// target path extended by the name.
pub open spec fn synthesized_import(
    w: Import,
    base: Seq<Seq<char>>,
    name: Seq<char>,
    out: Import,
) -> bool {
    &&& attributes_eq(w.attributes, out.attributes)
    &&& out.visibility == w.visibility
    &&& identifier_opt_eq(w.renaming, out.renaming)
    &&& out.path@ == base.push(name)
}

/// The chunk of imports one wildcard contributes: one synthesized import
/// per name its target module exports; nothing when the target is
/// unresolved.
pub open spec fn spec_wildcard_chunk(w: Import, children: Seq<Module>, chunk: Seq<Import>) -> bool {
    let base = w.path@.drop_last();
    match spec_find_in(children, base) {
        None => chunk.len() == 0,
        Some(fm) => {
            let names = spec_exports(fm);
            chunk.len() == names.len() && forall|t: int|
                0 <= t < names.len() ==> synthesized_import(w, base, names[t], #[trigger] chunk[t])
        },
    }
}

/// `out` is the concatenation of the chunks of `ws`, in order.
pub open spec fn spec_wildcard_chunks(ws: Seq<Import>, children: Seq<Module>, out: Seq<Import>) -> bool
    decreases ws.len(),
{
    if ws.len() == 0 {
        out.len() == 0
    } else {
        exists|k: int|
            0 <= k <= out.len() && spec_wildcard_chunk(ws[0], children, out.take(k))
                && spec_wildcard_chunks(ws.drop_first(), children, #[trigger] out.skip(k))
    }
}

/// Appending one wildcard's chunk extends a chunk concatenation.
proof fn lemma_chunks_snoc(
    ws: Seq<Import>,
    children: Seq<Module>,
    out: Seq<Import>,
    w: Import,
    chunk: Seq<Import>,
)
    requires
        spec_wildcard_chunks(ws, children, out),
        spec_wildcard_chunk(w, children, chunk),
    ensures
        spec_wildcard_chunks(ws.push(w), children, out + chunk),
    decreases ws.len(),
{
    if ws.len() == 0 {
        assert(out.len() == 0);
        let all = out + chunk;
        let k = chunk.len() as int;
        assert(all.take(k) =~= chunk);
        assert(all.skip(k) =~= Seq::<Import>::empty());
        assert(ws.push(w)[0] == w);
        assert(ws.push(w).drop_first() =~= Seq::<Import>::empty());
        assert(spec_wildcard_chunks(ws.push(w).drop_first(), children, all.skip(k)));
        assert(spec_wildcard_chunk(ws.push(w)[0], children, all.take(k)));
    } else {
        let k = choose|k: int|
            0 <= k <= out.len() && spec_wildcard_chunk(ws[0], children, out.take(k))
                && spec_wildcard_chunks(ws.drop_first(), children, #[trigger] out.skip(k));
        lemma_chunks_snoc(ws.drop_first(), children, out.skip(k), w, chunk);
        let all = out + chunk;
        assert(all.take(k) =~= out.take(k));
        assert(all.skip(k) =~= out.skip(k) + chunk);
        assert(ws.push(w)[0] == ws[0]);
        assert(ws.push(w).drop_first() =~= ws.drop_first().push(w));
        assert(spec_wildcard_chunk(ws.push(w)[0], children, all.take(k)));
        assert(spec_wildcard_chunks(ws.push(w).drop_first(), children, all.skip(k)));
    }
}

/// A module after wildcard expansion: child modules expanded first, then
/// the import list rebuilt as the non-wildcard imports followed by each
/// wildcard's synthesized imports; everything else untouched.
pub open spec fn module_wildcards_replaced(a: Module, b: Module) -> bool
    decreases a,
{
    &&& b.attributes == a.attributes
    &&& b.visibility == a.visibility
    &&& b.name == a.name
    &&& b.functions == a.functions
    &&& b.objects == a.objects
    &&& a.modules@.len() == b.modules@.len()
    &&& (forall|i: int| 0 <= i < a.modules@.len() ==> module_wildcards_replaced(
        #[trigger] a.modules@[i],
        b.modules@[i],
    ))
    &&& b.imports@.len() >= spec_nonwildcard(a.imports@).len()
    &&& b.imports@.take(spec_nonwildcard(a.imports@).len() as int) == spec_nonwildcard(a.imports@)
    &&& spec_wildcard_chunks(
        spec_wildcards(a.imports@),
        b.modules@,
        b.imports@.skip(spec_nonwildcard(a.imports@).len() as int),
    )
}

/// The path without its last segment, as a fresh value.
fn parent_path(path: &Path) -> (r: Path)
    requires
        path@.len() > 0,
    ensures
        r@ == path@.drop_last(),
{
    let n = path.segments.len();
    let mut segments: Vec<Identifier> = Vec::new();
    let mut i: usize = 0;
    while i < n - 1
        invariant
            0 <= i <= n - 1,
            n == path.segments@.len(),
            n >= 1,
            segments@.len() == i,
            forall|j: int| 0 <= j < i ==> #[trigger] segments@[j]@ == path@[j],
        decreases n - 1 - i,
    {
        segments.push(path.segments[i].clone());
        i += 1;
    }
    let r = Path { segments };
    proof {
        assert(r@ =~= path@.drop_last());
    }
    r
}

impl Module {
    /// Replaces every wildcard import, here and in all child modules,
    /// with one concrete import per name the wildcard's target module
    /// publicly exports; child modules are expanded first, so transitive
    /// re-exports resolve in one pass. A wildcard whose target is not
    /// found contributes nothing.
    pub fn replace_wildcard_imports(&mut self)
        ensures
            module_wildcards_replaced(*old(self), *final(self)),
    {
        let mut tmp = Module::new(Identifier::new(""));
        core::mem::swap(self, &mut tmp);
        let replaced = Module::wildcards_replaced(tmp);
        *self = replaced;
    }

    /// The module with wildcard imports replaced, by value.
    fn wildcards_replaced(m: Module) -> (r: Module)
        ensures
            module_wildcards_replaced(m, r),
        decreases m,
    {
        let Module { attributes, visibility, name, imports, modules, functions, objects } = m;
        let mut modules = modules;
        let n = modules.len();
        let mut new_modules: Vec<Module> = Vec::new();
        let mut i: usize = 0;
        proof {
            assert(modules@ =~= m.modules@.skip(0));
        }
        while i < n
            invariant
                0 <= i <= n,
                n == m.modules@.len(),
                modules@ =~= m.modules@.skip(i as int),
                new_modules@.len() == i,
                forall|j: int| 0 <= j < i ==> module_wildcards_replaced(
                    #[trigger] m.modules@[j],
                    new_modules@[j],
                ),
            decreases n - i,
        {
            let child = modules.remove(0);
            proof {
                assert(child == m.modules@[i as int]);
                assert(decreases_to!(m => m.modules@[i as int]));
            }
            let child = Module::wildcards_replaced(child);
            new_modules.push(child);
            proof {
                assert(modules@ =~= m.modules@.skip(i + 1));
            }
            i += 1;
        }
        // partition the imports into plain ones and wildcards
        let mut imports = imports;
        let mut plain: Vec<Import> = Vec::new();
        let mut wild: Vec<Import> = Vec::new();
        let c = imports.len();
        let mut k: usize = 0;
        proof {
            assert(imports@ =~= m.imports@.skip(0));
            assert(spec_nonwildcard(m.imports@) =~= plain@ + spec_nonwildcard(imports@));
            assert(spec_wildcards(m.imports@) =~= wild@ + spec_wildcards(imports@));
        }
        while k < c
            invariant
                0 <= k <= c,
                c == m.imports@.len(),
                imports@ =~= m.imports@.skip(k as int),
                spec_nonwildcard(m.imports@) == plain@ + spec_nonwildcard(imports@),
                spec_wildcards(m.imports@) == wild@ + spec_wildcards(imports@),
                forall|j: int| 0 <= j < wild@.len() ==> spec_is_wildcard(#[trigger] wild@[j]),
            decreases c - k,
        {
            let ghost before = imports@;
            let w = imports.remove(0);
            proof {
                assert(w == before[0]);
                assert(imports@ =~= before.drop_first());
            }
            if w.is_wildcard() {
                proof {
                    assert(spec_wildcards(before) =~= seq![w] + spec_wildcards(imports@));
                    assert(wild@.push(w) =~= wild@ + seq![w]);
                    assert((wild@ + seq![w]) + spec_wildcards(imports@) =~= wild@ + (seq![w]
                        + spec_wildcards(imports@)));
                }
                wild.push(w);
            } else {
                proof {
                    assert(spec_nonwildcard(before) =~= seq![w] + spec_nonwildcard(imports@));
                    assert(plain@.push(w) =~= plain@ + seq![w]);
                    assert((plain@ + seq![w]) + spec_nonwildcard(imports@) =~= plain@ + (seq![w]
                        + spec_nonwildcard(imports@)));
                }
                plain.push(w);
            }
            k += 1;
        }
        proof {
            assert(spec_nonwildcard(imports@).len() == 0);
            assert(spec_wildcards(imports@).len() == 0);
            assert(plain@ + spec_nonwildcard(imports@) =~= plain@);
            assert(wild@ + spec_wildcards(imports@) =~= wild@);
        }
        // expand each wildcard against the already-expanded children
        let mut result = plain;
        let ghost base = result@.len() as int;
        let wn = wild.len();
        let mut j: usize = 0;
        proof {
            assert(result@.skip(base) =~= Seq::<Import>::empty());
            assert(wild@.take(0) =~= Seq::<Import>::empty());
        }
        while j < wn
            invariant
                0 <= j <= wn,
                wn == wild@.len(),
                forall|q: int| 0 <= q < wild@.len() ==> spec_is_wildcard(#[trigger] wild@[q]),
                0 <= base <= result@.len(),
                result@.take(base) == spec_nonwildcard(m.imports@),
                spec_wildcard_chunks(wild@.take(j as int), new_modules@, result@.skip(base)),
            decreases wn - j,
        {
            let w = &wild[j];
            let target = parent_path(&w.path);
            let ghost pre = result@;
            let ghost chunk_start = result@.len() as int;
            let found = find_in_modules(&new_modules, &target);
            match found {
                None => {
                    proof {
                        assert(spec_wildcard_chunk(wild@[j as int], new_modules@,
                            Seq::<Import>::empty()));
                        lemma_chunks_snoc(
                            wild@.take(j as int),
                            new_modules@,
                            result@.skip(base),
                            wild@[j as int],
                            Seq::<Import>::empty(),
                        );
                        assert(wild@.take(j + 1) =~= wild@.take(j as int).push(wild@[j as int]));
                        assert(result@.skip(base) + Seq::<Import>::empty() =~= result@.skip(base));
                    }
                },
                Some(fm) => {
                    let on = fm.objects.len();
                    let mut t: usize = 0;
                    proof {
                        assert(fm.objects@.skip(0) =~= fm.objects@);
                        assert(Seq::new((result@.len() - chunk_start) as nat, |u: int| result@[
                            chunk_start + u].path@.last()) =~= Seq::<Seq<char>>::empty());
                        assert(result@.take(chunk_start) =~= pre);
                    }
                    while t < on
                        invariant
                            0 <= t <= on,
                            on == fm.objects@.len(),
                            0 <= chunk_start <= result@.len(),
                            chunk_start == pre.len(),
                            result@.take(chunk_start) == pre,
                            spec_is_wildcard(*w),
                            target@ == w.path@.drop_last(),
                            spec_object_exports(fm.objects@) == Seq::new(
                                (result@.len() - chunk_start) as nat,
                                |u: int| result@[chunk_start + u].path@.last(),
                            ) + spec_object_exports(fm.objects@.skip(t as int)),
                            forall|u: int| chunk_start <= u < result@.len() ==> {
                                &&& attributes_eq(w.attributes, (#[trigger] result@[u]).attributes)
                                &&& result@[u].visibility == w.visibility
                                &&& identifier_opt_eq(w.renaming, result@[u].renaming)
                                &&& result@[u].path@.len() == target@.len() + 1
                                &&& result@[u].path@.drop_last() == target@
                            },
                        decreases on - t,
                    {
                        let ghost names_before = Seq::new(
                            (result@.len() - chunk_start) as nat,
                            |u: int| result@[chunk_start + u].path@.last(),
                        );
                        proof {
                            assert(fm.objects@.skip(t as int)[0] == fm.objects@[t as int]);
                            assert(fm.objects@.skip(t as int).drop_first() =~= fm.objects@.skip(
                                t + 1,
                            ));
                        }
                        let object = &fm.objects[t];
                        match object.visibility() {
                            Visibility::Public => {
                                let mut path = parent_path(&w.path);
                                path.push_back(object.identifier().clone());
                                let renaming = match &w.renaming {
                                    Some(x) => Some(x.clone()),
                                    None => None,
                                };
                                let synth = Import {
                                    attributes: w.attributes.duplicate(),
                                    visibility: w.visibility,
                                    renaming,
                                    path,
                                };
                                result.push(synth);
                                proof {
                                    assert(result@.take(chunk_start) =~= pre);
                                    assert(result@[result@.len() - 1].path@.last()
                                        == crate::object::spec_object_identifier(
                                        fm.objects@[t as int],
                                    ));
                                    assert(result@[result@.len() - 1].path@.drop_last() =~= target@);
                                    assert(Seq::new(
                                        (result@.len() - chunk_start) as nat,
                                        |u: int| result@[chunk_start + u].path@.last(),
                                    ) =~= names_before + seq![crate::object::spec_object_identifier(
                                        fm.objects@[t as int],
                                    )]);
                                    assert((names_before + seq![
                                        crate::object::spec_object_identifier(
                                            fm.objects@[t as int],
                                        ),
                                    ]) + spec_object_exports(fm.objects@.skip(t + 1))
                                        =~= names_before + (seq![
                                        crate::object::spec_object_identifier(
                                            fm.objects@[t as int],
                                        ),
                                    ] + spec_object_exports(fm.objects@.skip(t + 1))));
                                }
                            },
                            _ => {},
                        }
                        t += 1;
                    }
                    let ghost obj_names = Seq::new(
                        (result@.len() - chunk_start) as nat,
                        |u: int| result@[chunk_start + u].path@.last(),
                    );
                    let im = fm.imports.len();
                    let mut t2: usize = 0;
                    proof {
                        assert(fm.imports@.skip(0) =~= fm.imports@);
                        assert(spec_object_exports(fm.objects@.skip(on as int)).len() == 0);
                        assert(obj_names + spec_object_exports(fm.objects@.skip(on as int))
                            =~= obj_names);
                        assert(obj_names + spec_import_exports(fm.imports@.skip(0)) =~= obj_names
                            + spec_import_exports(fm.imports@));
                    }
                    while t2 < im
                        invariant
                            0 <= t2 <= im,
                            im == fm.imports@.len(),
                            0 <= chunk_start <= result@.len(),
                            chunk_start == pre.len(),
                            result@.take(chunk_start) == pre,
                            spec_is_wildcard(*w),
                            target@ == w.path@.drop_last(),
                            spec_object_exports(fm.objects@) + spec_import_exports(fm.imports@)
                                == Seq::new(
                                (result@.len() - chunk_start) as nat,
                                |u: int| result@[chunk_start + u].path@.last(),
                            ) + spec_import_exports(fm.imports@.skip(t2 as int)),
                            forall|u: int| chunk_start <= u < result@.len() ==> {
                                &&& attributes_eq(w.attributes, (#[trigger] result@[u]).attributes)
                                &&& result@[u].visibility == w.visibility
                                &&& identifier_opt_eq(w.renaming, result@[u].renaming)
                                &&& result@[u].path@.len() == target@.len() + 1
                                &&& result@[u].path@.drop_last() == target@
                            },
                        decreases im - t2,
                    {
                        let ghost names_before = Seq::new(
                            (result@.len() - chunk_start) as nat,
                            |u: int| result@[chunk_start + u].path@.last(),
                        );
                        proof {
                            assert(fm.imports@.skip(t2 as int)[0] == fm.imports@[t2 as int]);
                            assert(fm.imports@.skip(t2 as int).drop_first() =~= fm.imports@.skip(
                                t2 + 1,
                            ));
                        }
                        let inner = &fm.imports[t2];
                        let mut visible: Option<Identifier> = None;
                        match inner.visibility {
                            Visibility::Public => {
                                match &inner.renaming {
                                    Some(x) => {
                                        visible = Some(x.clone());
                                    },
                                    None => {
                                        match inner.path.last() {
                                            Some(l) => {
                                                visible = Some(l.clone());
                                            },
                                            None => {},
                                        }
                                    },
                                }
                            },
                            _ => {},
                        }
                        let ghost this_exports = spec_import_exports(fm.imports@.skip(t2 as int));
                        let ghost next_exports = spec_import_exports(fm.imports@.skip(t2 + 1));
                        match visible {
                            Some(vname) => {
                                proof {
                                    assert(this_exports =~= seq![vname@] + next_exports);
                                }
                                let mut path = parent_path(&w.path);
                                path.push_back(vname);
                                let renaming = match &w.renaming {
                                    Some(x) => Some(x.clone()),
                                    None => None,
                                };
                                let synth = Import {
                                    attributes: w.attributes.duplicate(),
                                    visibility: w.visibility,
                                    renaming,
                                    path,
                                };
                                result.push(synth);
                                proof {
                                    assert(result@.take(chunk_start) =~= pre);
                                    assert(result@[result@.len() - 1].path@.drop_last() =~= target@);
                                    assert(Seq::new(
                                        (result@.len() - chunk_start) as nat,
                                        |u: int| result@[chunk_start + u].path@.last(),
                                    ) =~= names_before + seq![result@[result@.len()
                                        - 1].path@.last()]);
                                    assert((names_before + seq![result@[result@.len()
                                        - 1].path@.last()]) + next_exports =~= names_before + (
                                    seq![result@[result@.len() - 1].path@.last()] + next_exports));
                                }
                            },
                            None => {
                                proof {
                                    assert(this_exports == next_exports);
                                }
                            },
                        }
                        t2 += 1;
                    }
                    proof {
                        let chunk = result@.skip(chunk_start);
                        let names = spec_exports(*fm);
                        assert(spec_import_exports(fm.imports@.skip(im as int)).len() == 0);
                        assert(names =~= Seq::new(
                            (result@.len() - chunk_start) as nat,
                            |u: int| result@[chunk_start + u].path@.last(),
                        ) + spec_import_exports(fm.imports@.skip(im as int)));
                        assert(names =~= Seq::new(
                            (result@.len() - chunk_start) as nat,
                            |u: int| result@[chunk_start + u].path@.last(),
                        ));
                        assert(chunk.len() == names.len());
                        assert forall|q: int| 0 <= q < names.len() implies synthesized_import(
                            wild@[j as int],
                            wild@[j as int].path@.drop_last(),
                            names[q],
                            #[trigger] chunk[q],
                        ) by {
                            assert(chunk[q] == result@[chunk_start + q]);
                            assert(names[q] == result@[chunk_start + q].path@.last());
                            assert(result@[chunk_start + q].path@ =~= result@[chunk_start
                                + q].path@.drop_last().push(result@[chunk_start + q].path@.last()));
                        }
                        assert(spec_wildcard_chunk(wild@[j as int], new_modules@, chunk));
                        assert(pre.skip(base) =~= result@.take(chunk_start).skip(base));
                        assert(spec_wildcard_chunks(wild@.take(j as int), new_modules@, pre.skip(
                            base,
                        )));
                        lemma_chunks_snoc(
                            wild@.take(j as int),
                            new_modules@,
                            pre.skip(base),
                            wild@[j as int],
                            chunk,
                        );
                        assert(result@.skip(base) =~= pre.skip(base) + chunk);
                        assert(wild@.take(j + 1) =~= wild@.take(j as int).push(wild@[j as int]));
                        assert(result@.take(base) =~= pre.take(base));
                    }
                },
            }
            j += 1;
        }
        proof {
            assert(wild@.take(wn as int) =~= wild@);
        }
        Module {
            attributes,
            visibility,
            name,
            imports: result,
            modules: new_modules,
            functions,
            objects,
        }
    }
}


/// On modules, branch lookup by name and child search agree.
proof fn lemma_find_child_is_find_branch(s: Seq<Module>, name: Seq<char>)
    ensures
        spec_find_child(s, name) == crate::tree::find_branch(s, name),
    decreases s.len(),
{
    if s.len() > 0 {
        lemma_find_child_is_find_branch(s.drop_first(), name);
    }
}

impl crate::tree::HasIdentifier for Module {
    open spec fn spec_identifier(&self) -> Seq<char> {
        self.name@
    }

    fn identifier(&self) -> (r: &String) {
        &self.name.name
    }
}

impl crate::tree::HasBranches for Module {
    open spec fn spec_branches(&self) -> Seq<Module> {
        self.modules@
    }
}

impl crate::tree::IsTree for Module {
    fn is(&self, identifier: &str) -> (r: bool) {
        str_eq(identifier, self.name.name.as_str())
    }

    fn get(&self, key: &str) -> (r: Option<&Module>) {
        proof {
            lemma_find_child_is_find_branch(self.modules@, key@);
        }
        self.find_child(key)
    }

    fn branches(&self) -> (r: Vec<&Module>) {
        let n = self.modules.len();
        let mut r: Vec<&Module> = Vec::new();
        let mut i: usize = 0;
        while i < n
            invariant
                0 <= i <= n,
                n == self.modules@.len(),
                r@.len() == i,
                forall|j: int| 0 <= j < i ==> *(#[trigger] r@[j]) == self.modules@[j],
            decreases n - i,
        {
            r.push(&self.modules[i]);
            i += 1;
        }
        r
    }

    fn path_get(&self, path: &[&str]) -> (r: Option<&Module>) {
        let n = path.len();
        let mut current: &Module = self;
        let mut i: usize = 0;
        let ghost names = path@.map_values(|s: &str| s@);
        proof {
            assert(names.skip(0) =~= names);
        }
        loop
            invariant
                0 <= i <= n,
                n == names.len(),
                n == path@.len(),
                names == path@.map_values(|s: &str| s@),
                crate::tree::spec_path_get(*self, names) == crate::tree::spec_path_get(
                    *current,
                    names.skip(i as int),
                ),
            decreases n - i,
        {
            if i == n {
                return Some(current);
            }
            proof {
                assert(names.skip(i as int)[0] == names[i as int]);
                lemma_find_child_is_find_branch(current.modules@, names[i as int]);
            }
            let child = match current.find_child(path[i]) {
                Some(child) => child,
                None => {
                    return None;
                },
            };
            proof {
                assert(names.skip(i as int).drop_first() =~= names.skip(i + 1));
            }
            current = child;
            i += 1;
        }
    }
}


impl Module {
    /// Structural equality with another module.
    pub fn equals(&self, other: &Module) -> (r: bool)
        ensures
            r == module_eq(*self, *other),
        decreases *self,
    {
        let head = self.attributes.equals(&other.attributes) && self.visibility
            == other.visibility && self.name == other.name;
        if !head {
            return false;
        }
        if self.imports.len() != other.imports.len() || self.modules.len() != other.modules.len()
            || self.functions.len() != other.functions.len() || self.objects.len()
            != other.objects.len() {
            proof {
                lemma_module_seq_eq_index(self.modules@, other.modules@);
            }
            return false;
        }
        let n1 = self.imports.len();
        let mut i: usize = 0;
        while i < n1
            invariant
                0 <= i <= n1,
                n1 == self.imports@.len(),
                n1 == other.imports@.len(),
                forall|j: int| 0 <= j < i ==> import_eq(
                    #[trigger] self.imports@[j],
                    other.imports@[j],
                ),
            decreases n1 - i,
        {
            if !self.imports[i].equals(&other.imports[i]) {
                return false;
            }
            i += 1;
        }
        let n2 = self.functions.len();
        let mut i: usize = 0;
        while i < n2
            invariant
                0 <= i <= n2,
                n2 == self.functions@.len(),
                n2 == other.functions@.len(),
                forall|j: int| 0 <= j < i ==> function_eq(
                    #[trigger] self.functions@[j],
                    other.functions@[j],
                ),
            decreases n2 - i,
        {
            if !self.functions[i].equals(&other.functions[i]) {
                return false;
            }
            i += 1;
        }
        let n3 = self.objects.len();
        let mut i: usize = 0;
        while i < n3
            invariant
                0 <= i <= n3,
                n3 == self.objects@.len(),
                n3 == other.objects@.len(),
                forall|j: int| 0 <= j < i ==> object_eq(
                    #[trigger] self.objects@[j],
                    other.objects@[j],
                ),
            decreases n3 - i,
        {
            if !self.objects[i].equals(&other.objects[i]) {
                return false;
            }
            i += 1;
        }
        let n4 = self.modules.len();
        let mut i: usize = 0;
        while i < n4
            invariant
                0 <= i <= n4,
                n4 == self.modules@.len(),
                n4 == other.modules@.len(),
                forall|j: int| 0 <= j < i ==> module_eq(
                    #[trigger] self.modules@[j],
                    other.modules@[j],
                ),
            decreases n4 - i,
        {
            if !self.modules[i].equals(&other.modules[i]) {
                proof {
                    lemma_module_seq_eq_index(self.modules@, other.modules@);
                }
                return false;
            }
            i += 1;
        }
        proof {
            lemma_module_seq_eq_index(self.modules@, other.modules@);
        }
        true
    }
}

impl PartialEq for Module {
    fn eq(&self, other: &Self) -> (r: bool) {
        self.equals(other)
    }
}

impl vstd::std_specs::cmp::PartialEqSpecImpl for Module {
    open spec fn obeys_eq_spec() -> bool {
        true
    }

    open spec fn eq_spec(&self, other: &Module) -> bool {
        module_eq(*self, *other)
    }
}


// --- laws of wildcard expansion ---

/// No import of the module, nor of any module below it, is a wildcard.
pub open spec fn module_no_wildcards(m: Module) -> bool
    decreases m,
{
    &&& (forall|i: int| 0 <= i < m.imports@.len() ==> !spec_is_wildcard(#[trigger] m.imports@[i]))
    &&& (forall|i: int| 0 <= i < m.modules@.len() ==> module_no_wildcards(
        #[trigger] m.modules@[i],
    ))
}

/// The import's renaming, if any, is not the wildcard marker.
pub open spec fn spec_renaming_not_star(i: Import) -> bool {
    i.renaming matches Some(r) ==> r@ != "*"@
}

/// No object and no import renaming anywhere in the module tree is
/// named like the wildcard marker itself.
pub open spec fn module_star_free(m: Module) -> bool
    decreases m,
{
    &&& (forall|i: int| 0 <= i < m.objects@.len() ==> crate::object::spec_object_identifier(
        #[trigger] m.objects@[i],
    ) != "*"@)
    &&& (forall|i: int| 0 <= i < m.imports@.len() ==> spec_renaming_not_star(
        #[trigger] m.imports@[i],
    ))
    &&& (forall|i: int| 0 <= i < m.modules@.len() ==> module_star_free(#[trigger] m.modules@[i]))
}

/// The non-wildcard imports are non-wildcard members of the list.
proof fn lemma_nonwildcard_elements(s: Seq<Import>)
    ensures
        forall|i: int| 0 <= i < spec_nonwildcard(s).len() ==> !spec_is_wildcard(
            #[trigger] spec_nonwildcard(s)[i],
        ) && s.contains(spec_nonwildcard(s)[i]),
    decreases s.len(),
{
    if s.len() > 0 {
        lemma_nonwildcard_elements(s.drop_first());
        assert forall|i: int| 0 <= i < spec_nonwildcard(s).len() implies !spec_is_wildcard(
            #[trigger] spec_nonwildcard(s)[i],
        ) && s.contains(spec_nonwildcard(s)[i]) by {
            if spec_is_wildcard(s[0]) {
                assert(spec_nonwildcard(s)[i] == spec_nonwildcard(s.drop_first())[i]);
                lemma_member_lift(s, spec_nonwildcard(s)[i]);
            } else {
                if i == 0 {
                    assert((seq![s[0]] + spec_nonwildcard(s.drop_first()))[0] == s[0]);
                    assert(s.contains(s[0]));
                } else {
                    assert((seq![s[0]] + spec_nonwildcard(s.drop_first()))[i]
                        == spec_nonwildcard(s.drop_first())[i - 1]);
                    lemma_member_lift(s, spec_nonwildcard(s)[i]);
                }
            }
        }
    }
}

/// The wildcard imports are wildcard members of the list.
proof fn lemma_wildcards_elements(s: Seq<Import>)
    ensures
        forall|i: int| 0 <= i < spec_wildcards(s).len() ==> spec_is_wildcard(
            #[trigger] spec_wildcards(s)[i],
        ) && s.contains(spec_wildcards(s)[i]),
    decreases s.len(),
{
    if s.len() > 0 {
        lemma_wildcards_elements(s.drop_first());
        assert forall|i: int| 0 <= i < spec_wildcards(s).len() implies spec_is_wildcard(
            #[trigger] spec_wildcards(s)[i],
        ) && s.contains(spec_wildcards(s)[i]) by {
            if !spec_is_wildcard(s[0]) {
                assert(spec_wildcards(s)[i] == spec_wildcards(s.drop_first())[i]);
                lemma_member_lift(s, spec_wildcards(s)[i]);
            } else {
                if i == 0 {
                    assert((seq![s[0]] + spec_wildcards(s.drop_first()))[0] == s[0]);
                    assert(s.contains(s[0]));
                } else {
                    assert((seq![s[0]] + spec_wildcards(s.drop_first()))[i] == spec_wildcards(
                        s.drop_first(),
                    )[i - 1]);
                    lemma_member_lift(s, spec_wildcards(s)[i]);
                }
            }
        }
    }
}

/// Membership in the rest of a list is membership in the list.
proof fn lemma_member_lift(s: Seq<Import>, x: Import)
    requires
        s.len() > 0,
        s.drop_first().contains(x),
    ensures
        s.contains(x),
{
    let w = choose|i: int| 0 <= i < s.drop_first().len() && s.drop_first()[i] == x;
    assert(s[w + 1] == x);
}

/// A list without wildcards is its own non-wildcard part, and has no
/// wildcard part.
proof fn lemma_no_wildcards_fixed(s: Seq<Import>)
    requires
        forall|i: int| 0 <= i < s.len() ==> !spec_is_wildcard(#[trigger] s[i]),
    ensures
        spec_nonwildcard(s) == s,
        spec_wildcards(s) == Seq::<Import>::empty(),
    decreases s.len(),
{
    if s.len() > 0 {
        assert forall|i: int| 0 <= i < s.drop_first().len() implies !spec_is_wildcard(
            #[trigger] s.drop_first()[i],
        ) by {
            assert(s.drop_first()[i] == s[i + 1]);
        }
        lemma_no_wildcards_fixed(s.drop_first());
        assert(seq![s[0]] + s.drop_first() =~= s);
    }
}

/// A child found by name is a member of the list.
proof fn lemma_find_child_member(s: Seq<Module>, name: Seq<char>, c: Module)
    requires
        spec_find_child(s, name) == Some(c),
    ensures
        exists|i: int| 0 <= i < s.len() && s[i] == c,
    decreases s.len(),
{
    if s.len() > 0 && s[0].name@ != name {
        lemma_find_child_member(s.drop_first(), name, c);
        let w = choose|i: int| 0 <= i < s.drop_first().len() && s.drop_first()[i] == c;
        assert(s[w + 1] == c);
    }
}

/// A module found below star-free, wildcard-free modules is itself
/// star-free and wildcard-free.
proof fn lemma_find_in_preserves(mods: Seq<Module>, path: Seq<Seq<char>>)
    requires
        forall|i: int| 0 <= i < mods.len() ==> module_star_free(#[trigger] mods[i])
            && module_no_wildcards(mods[i]),
    ensures
        spec_find_in(mods, path) matches Some(fm) ==> module_star_free(fm)
            && module_no_wildcards(fm),
    decreases path.len(),
{
    if path.len() > 0 {
        match spec_find_child(mods, path[0]) {
            Some(c) => {
                lemma_find_child_member(mods, path[0], c);
                if path.len() > 1 {
                    lemma_find_in_preserves(c.modules@, path.drop_first());
                }
            },
            None => {},
        }
    }
}

/// The names star-free objects export are not the wildcard marker.
proof fn lemma_object_exports_not_star(objs: Seq<Object>)
    requires
        forall|i: int| 0 <= i < objs.len() ==> crate::object::spec_object_identifier(
            #[trigger] objs[i],
        ) != "*"@,
    ensures
        forall|i: int| 0 <= i < spec_object_exports(objs).len() ==> #[trigger] spec_object_exports(
            objs,
        )[i] != "*"@,
    decreases objs.len(),
{
    if objs.len() > 0 {
        assert forall|i: int|
            0 <= i < objs.drop_first().len() implies crate::object::spec_object_identifier(
            #[trigger] objs.drop_first()[i],
        ) != "*"@ by {
            assert(objs.drop_first()[i] == objs[i + 1]);
        }
        lemma_object_exports_not_star(objs.drop_first());
        if spec_object_visibility(objs[0]) == Visibility::Public {
            assert forall|i: int|
                0 <= i < spec_object_exports(objs).len() implies #[trigger] spec_object_exports(
                objs,
            )[i] != "*"@ by {
                if i == 0 {
                    assert(spec_object_exports(objs)[0] == crate::object::spec_object_identifier(
                        objs[0],
                    ));
                } else {
                    assert(spec_object_exports(objs)[i] == spec_object_exports(
                        objs.drop_first(),
                    )[i - 1]);
                }
            }
        } else {
            assert(spec_object_exports(objs) == spec_object_exports(objs.drop_first()));
            assert forall|i: int|
                0 <= i < spec_object_exports(objs).len() implies #[trigger] spec_object_exports(
                objs,
            )[i] != "*"@ by {
                assert(spec_object_exports(objs)[i] == spec_object_exports(objs.drop_first())[i]);
            }
        }
    }
}

/// The names wildcard-free imports export are not the wildcard marker.
proof fn lemma_import_exports_not_star(imps: Seq<Import>)
    requires
        forall|i: int| 0 <= i < imps.len() ==> spec_renaming_not_star(#[trigger] imps[i])
            && !spec_is_wildcard(imps[i]),
    ensures
        forall|i: int| 0 <= i < spec_import_exports(imps).len() ==> #[trigger] spec_import_exports(
            imps,
        )[i] != "*"@,
    decreases imps.len(),
{
    if imps.len() > 0 {
        assert forall|i: int| 0 <= i < imps.drop_first().len() implies spec_renaming_not_star(
            #[trigger] imps.drop_first()[i],
        ) && !spec_is_wildcard(imps.drop_first()[i]) by {
            assert(imps.drop_first()[i] == imps[i + 1]);
        }
        lemma_import_exports_not_star(imps.drop_first());
        if imps[0].visibility == Visibility::Public {
            assert forall|i: int|
                0 <= i < spec_import_exports(imps).len() implies #[trigger] spec_import_exports(
                imps,
            )[i] != "*"@ by {
                match imps[0].renaming {
                    Some(r) => {
                        if i == 0 {
                            assert(spec_import_exports(imps)[0] == r@);
                        } else {
                            assert(spec_import_exports(imps)[i] == spec_import_exports(
                                imps.drop_first(),
                            )[i - 1]);
                        }
                    },
                    None => {
                        if imps[0].path@.len() > 0 {
                            if i == 0 {
                                assert(spec_import_exports(imps)[0] == imps[0].path@.last());
                            } else {
                                assert(spec_import_exports(imps)[i] == spec_import_exports(
                                    imps.drop_first(),
                                )[i - 1]);
                            }
                        }
                    },
                }
            }
        }
    }
}

/// Nothing a star-free, wildcard-free module exports is the wildcard
/// marker.
proof fn lemma_exports_not_star(fm: Module)
    requires
        module_star_free(fm),
        module_no_wildcards(fm),
    ensures
        forall|i: int| 0 <= i < spec_exports(fm).len() ==> #[trigger] spec_exports(fm)[i] != "*"@,
{
    lemma_object_exports_not_star(fm.objects@);
    lemma_import_exports_not_star(fm.imports@);
    assert forall|i: int| 0 <= i < spec_exports(fm).len() implies #[trigger] spec_exports(fm)[i]
        != "*"@ by {
        if i < spec_object_exports(fm.objects@).len() {
            assert(spec_exports(fm)[i] == spec_object_exports(fm.objects@)[i]);
        } else {
            assert(spec_exports(fm)[i] == spec_import_exports(fm.imports@)[i
                - spec_object_exports(fm.objects@).len()]);
        }
    }
}

/// Every import a chunk concatenation synthesizes keeps its wildcard's
/// renaming and ends in an exported name: none is a wildcard.
proof fn lemma_chunks_elements(ws: Seq<Import>, children: Seq<Module>, out: Seq<Import>)
    requires
        spec_wildcard_chunks(ws, children, out),
        forall|i: int| 0 <= i < ws.len() ==> spec_renaming_not_star(#[trigger] ws[i]),
        forall|i: int| 0 <= i < children.len() ==> module_star_free(#[trigger] children[i])
            && module_no_wildcards(children[i]),
    ensures
        forall|i: int| 0 <= i < out.len() ==> !spec_is_wildcard(#[trigger] out[i])
            && spec_renaming_not_star(out[i]),
    decreases ws.len(),
{
    if ws.len() == 0 {
        assert(out.len() == 0);
    } else {
        let k = choose|k: int|
            0 <= k <= out.len() && spec_wildcard_chunk(ws[0], children, out.take(k))
                && spec_wildcard_chunks(ws.drop_first(), children, #[trigger] out.skip(k));
        assert forall|i: int| 0 <= i < ws.drop_first().len() implies spec_renaming_not_star(
            #[trigger] ws.drop_first()[i],
        ) by {
            assert(ws.drop_first()[i] == ws[i + 1]);
        }
        lemma_chunks_elements(ws.drop_first(), children, out.skip(k));
        let chunk = out.take(k);
        let base = ws[0].path@.drop_last();
        match spec_find_in(children, base) {
            None => {
                assert(chunk.len() == 0);
            },
            Some(fm) => {
                lemma_find_in_preserves(children, base);
                lemma_exports_not_star(fm);
                assert forall|i: int| 0 <= i < chunk.len() implies !spec_is_wildcard(
                    #[trigger] chunk[i],
                ) && spec_renaming_not_star(chunk[i]) by {
                    let names = spec_exports(fm);
                    assert(synthesized_import(ws[0], base, names[i], chunk[i]));
                    assert(chunk[i].path@.last() == names[i]);
                    assert(names[i] != "*"@);
                }
            },
        }
        assert forall|i: int| 0 <= i < out.len() implies !spec_is_wildcard(#[trigger] out[i])
            && spec_renaming_not_star(out[i]) by {
            if i < k {
                assert(out[i] == chunk[i]);
            } else {
                assert(out[i] == out.skip(k)[i - k]);
            }
        }
    }
}

/// The first expansion pass leaves a star-free module with no wildcard
/// import anywhere, and keeps it star-free.
pub proof fn lemma_expansion_removes_wildcards(a: Module, b: Module)
    requires
        module_star_free(a),
        module_wildcards_replaced(a, b),
    ensures
        module_no_wildcards(b),
        module_star_free(b),
    decreases a,
{
    assert forall|i: int| 0 <= i < b.modules@.len() implies module_no_wildcards(
        #[trigger] b.modules@[i],
    ) && module_star_free(b.modules@[i]) by {
        lemma_expansion_removes_wildcards(a.modules@[i], b.modules@[i]);
    }
    let nw = spec_nonwildcard(a.imports@);
    let tail = b.imports@.skip(nw.len() as int);
    lemma_nonwildcard_elements(a.imports@);
    lemma_wildcards_elements(a.imports@);
    assert forall|i: int| 0 <= i < spec_wildcards(a.imports@).len() implies spec_renaming_not_star(
        #[trigger] spec_wildcards(a.imports@)[i],
    ) by {
        let x = spec_wildcards(a.imports@)[i];
        let w = choose|j: int| 0 <= j < a.imports@.len() && a.imports@[j] == x;
    }
    lemma_chunks_elements(spec_wildcards(a.imports@), b.modules@, tail);
    assert forall|i: int| 0 <= i < b.imports@.len() implies !spec_is_wildcard(
        #[trigger] b.imports@[i],
    ) && spec_renaming_not_star(b.imports@[i]) by {
        if i < nw.len() {
            assert(b.imports@.take(nw.len() as int)[i] == b.imports@[i]);
            assert(nw[i] == b.imports@[i]);
            let x = nw[i];
            let w = choose|j: int| 0 <= j < a.imports@.len() && a.imports@[j] == x;
        } else {
            assert(b.imports@[i] == tail[i - nw.len()]);
        }
    }
}

/// Expanding a module that has no wildcard import anywhere changes
/// nothing.
pub proof fn lemma_expansion_fixed_point(b: Module, c: Module)
    requires
        module_no_wildcards(b),
        module_wildcards_replaced(b, c),
    ensures
        module_eq(b, c),
    decreases b,
{
    assert forall|i: int| 0 <= i < b.modules@.len() implies module_eq(
        #[trigger] b.modules@[i],
        c.modules@[i],
    ) by {
        lemma_expansion_fixed_point(b.modules@[i], c.modules@[i]);
    }
    lemma_module_seq_eq_index(b.modules@, c.modules@);
    lemma_no_wildcards_fixed(b.imports@);
    assert(spec_wildcard_chunks(
        Seq::<Import>::empty(),
        c.modules@,
        c.imports@.skip(b.imports@.len() as int),
    ));
    assert(c.imports@.skip(b.imports@.len() as int).len() == 0);
    assert(c.imports@ =~= c.imports@.take(b.imports@.len() as int));
    assert(c.imports@ == b.imports@);
    assert forall|i: int| 0 <= i < b.imports@.len() implies import_eq(
        #[trigger] b.imports@[i],
        c.imports@[i],
    ) by {
        crate::import::lemma_import_eq_reflexive(b.imports@[i]);
    }
    crate::attribute::lemma_attribute_seq_eq_reflexive(b.attributes.attributes@);
    assert forall|i: int| 0 <= i < b.functions@.len() implies function_eq(
        #[trigger] b.functions@[i],
        c.functions@[i],
    ) by {
        crate::function::lemma_function_eq_reflexive(b.functions@[i]);
    }
    assert forall|i: int| 0 <= i < b.objects@.len() implies object_eq(
        #[trigger] b.objects@[i],
        c.objects@[i],
    ) by {
        crate::object::lemma_object_eq_reflexive(b.objects@[i]);
    }
}

/// Wildcard import expansion is idempotent: after one pass has replaced
/// every wildcard, a second pass gives the same module again. The one
/// family of inputs left out: a module tree in which an object or a
/// renaming is itself named like the wildcard marker, which expansion
/// would turn into a fresh wildcard.
pub proof fn lemma_wildcard_expansion_idempotent(a: Module, b: Module, c: Module)
    requires
        module_star_free(a),
        module_wildcards_replaced(a, b),
        module_wildcards_replaced(b, c),
    ensures
        module_eq(b, c),
{
    lemma_expansion_removes_wildcards(a, b);
    lemma_expansion_fixed_point(b, c);
}

} // verus!
