use vstd::prelude::*;
use crate::function::Function;
use crate::identifier::Identifier;
use crate::object::{Object, spec_object_identifier};
use crate::text::str_eq;
use crate::type_definition::TypeDefinition;

verus! {

/// A named group of objects, functions and methods a frontend collects
/// from one source scope.
#[derive(Debug)]
pub struct Interface {
    pub identifier: Identifier,
    pub functions: Vec<Function>,
    pub methods: Vec<Function>,
}

impl Interface {
    /// An empty interface with the given name.
    pub fn new(identifier: Identifier) -> (r: Interface)
        ensures
            r.identifier == identifier,
            r.functions@.len() == 0,
            r.methods@.len() == 0,
    {
        Interface { identifier, functions: Vec::new(), methods: Vec::new() }
    }
}

/// Everything a frontend collects from one source scope, before the
/// scopes of nested blocks are merged in.
#[derive(Debug)]
pub struct Scope {
    pub objects: Vec<Object>,
    pub types: Vec<TypeDefinition>,
    pub functions: Vec<Function>,
    pub methods: Vec<Function>,
    pub interfaces: Vec<Interface>,
}

/// Some object in `s` is keyed by `name`.
pub open spec fn contains_object_id(s: Seq<Object>, name: Seq<char>) -> bool {
    exists|i: int| 0 <= i < s.len() && spec_object_identifier(#[trigger] s[i]) == name
}

/// The index of the last object in `s` keyed by `name`.
pub open spec fn spec_last_index_of(s: Seq<Object>, name: Seq<char>) -> int
    decreases s.len(),
{
    if s.len() == 0 {
        -1
    } else if spec_object_identifier(s.last()) == name {
        s.len() - 1
    } else {
        spec_last_index_of(s.drop_last(), name)
    }
}

/// What deduplication leaves after scanning `s` from its end with the
/// already-kept objects `acc`: each object whose identifier was not seen
/// yet is appended.
pub open spec fn spec_dedup_from(s: Seq<Object>, acc: Seq<Object>) -> Seq<Object>
    decreases s.len(),
{
    if s.len() == 0 {
        acc
    } else {
        let x = s.last();
        let acc2 = if contains_object_id(acc, spec_object_identifier(x)) {
            acc
        } else {
            acc.push(x)
        };
        spec_dedup_from(s.drop_last(), acc2)
    }
}

/// Deduplication by identifier: scan last-declared first, keep the first
/// occurrence seen.
pub open spec fn spec_dedup(s: Seq<Object>) -> Seq<Object> {
    spec_dedup_from(s, Seq::empty())
}

/// No two objects of `s` share an identifier.
pub open spec fn distinct_object_ids(s: Seq<Object>) -> bool {
    forall|i: int, j: int|
        0 <= i < j < s.len() ==> spec_object_identifier(#[trigger] s[i]) != spec_object_identifier(
            #[trigger] s[j],
        )
}

/// Pushing extends the identifiers a list contains by the pushed one.
proof fn lemma_contains_id_push(s: Seq<Object>, x: Object, name: Seq<char>)
    ensures
        contains_object_id(s.push(x), name) <==> (contains_object_id(s, name)
            || spec_object_identifier(x) == name),
{
    if contains_object_id(s, name) {
        let w = choose|i: int| 0 <= i < s.len() && spec_object_identifier(#[trigger] s[i]) == name;
        assert(s.push(x)[w] == s[w]);
    }
    if spec_object_identifier(x) == name {
        assert(s.push(x)[s.len() as int] == x);
    }
    if contains_object_id(s.push(x), name) {
        let w = choose|i: int|
            0 <= i < s.push(x).len() && spec_object_identifier(#[trigger] s.push(x)[i]) == name;
        if w < s.len() {
            assert(s[w] == s.push(x)[w]);
        }
    }
}

/// A nonempty list contains an identifier exactly when its front part
/// does, or its last element carries it.
proof fn lemma_contains_id_unsnoc(s: Seq<Object>, name: Seq<char>)
    requires
        s.len() > 0,
    ensures
        contains_object_id(s, name) <==> (contains_object_id(s.drop_last(), name)
            || spec_object_identifier(s.last()) == name),
{
    assert(s.drop_last().push(s.last()) =~= s);
    lemma_contains_id_push(s.drop_last(), s.last(), name);
}

proof fn lemma_dedup_from_distinct(s: Seq<Object>, acc: Seq<Object>)
    requires
        distinct_object_ids(acc),
    ensures
        distinct_object_ids(spec_dedup_from(s, acc)),
    decreases s.len(),
{
    if s.len() > 0 {
        let x = s.last();
        if contains_object_id(acc, spec_object_identifier(x)) {
            lemma_dedup_from_distinct(s.drop_last(), acc);
        } else {
            let acc2 = acc.push(x);
            assert forall|i: int, j: int| 0 <= i < j < acc2.len() implies spec_object_identifier(
                #[trigger] acc2[i],
            ) != spec_object_identifier(#[trigger] acc2[j]) by {
                if j == acc2.len() - 1 {
                    assert(acc2[i] == acc[i]);
                    assert(!(spec_object_identifier(acc[i]) == spec_object_identifier(x)));
                }
            }
            lemma_dedup_from_distinct(s.drop_last(), acc2);
        }
    }
}

proof fn lemma_dedup_from_ids(s: Seq<Object>, acc: Seq<Object>, name: Seq<char>)
    ensures
        contains_object_id(spec_dedup_from(s, acc), name) <==> (contains_object_id(s, name)
            || contains_object_id(acc, name)),
    decreases s.len(),
{
    if s.len() == 0 {
        assert(!contains_object_id(s, name));
    } else {
        let x = s.last();
        lemma_contains_id_unsnoc(s, name);
        if contains_object_id(acc, spec_object_identifier(x)) {
            lemma_dedup_from_ids(s.drop_last(), acc, name);
        } else {
            lemma_dedup_from_ids(s.drop_last(), acc.push(x), name);
            lemma_contains_id_push(acc, x, name);
        }
    }
}

proof fn lemma_dedup_from_keeps_last(s: Seq<Object>, acc: Seq<Object>, name: Seq<char>)
    requires
        !contains_object_id(acc, name),
        contains_object_id(s, name),
    ensures
        0 <= spec_last_index_of(s, name) < s.len(),
        spec_object_identifier(s[spec_last_index_of(s, name)]) == name,
        spec_dedup_from(s, acc).contains(s[spec_last_index_of(s, name)]),
    decreases s.len(),
{
    let x = s.last();
    if spec_object_identifier(x) == name {
        // the last element is the last occurrence and is kept now
        let acc2 = acc.push(x);
        assert(acc2[acc.len() as int] == x);
        lemma_dedup_from_grows(s.drop_last(), acc2);
        assert(spec_dedup_from(s.drop_last(), acc2).contains(acc2[acc.len() as int]));
        assert(spec_last_index_of(s, name) == s.len() - 1);
    } else {
        let target = spec_last_index_of(s, name);
        assert(spec_last_index_of(s, name) == spec_last_index_of(s.drop_last(), name));
        let w = choose|i: int|
            0 <= i < s.len() && spec_object_identifier(#[trigger] s[i]) == name;
        assert(w < s.len() - 1);
        assert(s.drop_last()[w] == s[w]);
        assert(contains_object_id(s.drop_last(), name));
        if contains_object_id(acc, spec_object_identifier(x)) {
            lemma_dedup_from_keeps_last(s.drop_last(), acc, name);
            assert(s.drop_last()[target] == s[target]);
        } else {
            let acc2 = acc.push(x);
            assert forall|i: int| 0 <= i < acc2.len() implies spec_object_identifier(
                #[trigger] acc2[i],
            ) != name by {
                if i < acc.len() {
                    assert(acc2[i] == acc[i]);
                }
            }
            lemma_dedup_from_keeps_last(s.drop_last(), acc2, name);
            assert(s.drop_last()[target] == s[target]);
        }
    }
}

/// Whatever is in the accumulator stays in the result.
proof fn lemma_dedup_from_grows(s: Seq<Object>, acc: Seq<Object>)
    ensures
        forall|i: int| 0 <= i < acc.len() ==> #[trigger] spec_dedup_from(s, acc).contains(acc[i]),
    decreases s.len(),
{
    if s.len() == 0 {
        assert forall|i: int| 0 <= i < acc.len() implies #[trigger] spec_dedup_from(s, acc).contains(
            acc[i],
        ) by {
            assert(spec_dedup_from(s, acc)[i] == acc[i]);
        }
    } else {
        let x = s.last();
        if contains_object_id(acc, spec_object_identifier(x)) {
            lemma_dedup_from_grows(s.drop_last(), acc);
            assert(spec_dedup_from(s, acc) == spec_dedup_from(s.drop_last(), acc));
        } else {
            let acc2 = acc.push(x);
            lemma_dedup_from_grows(s.drop_last(), acc2);
            assert forall|i: int| 0 <= i < acc.len() implies #[trigger] spec_dedup_from(
                s,
                acc,
            ).contains(acc[i]) by {
                assert(acc2[i] == acc[i]);
                assert(spec_dedup_from(s.drop_last(), acc2).contains(acc2[i]));
            }
        }
    }
}

/// Deduplicated objects carry pairwise distinct identifiers; exactly the
/// identifiers of the input survive; and for each surviving identifier
/// the object kept is the last-declared one.
pub proof fn lemma_deduplicate_keeps_last_declared(s: Seq<Object>, name: Seq<char>)
    ensures
        distinct_object_ids(spec_dedup(s)),
        contains_object_id(spec_dedup(s), name) <==> contains_object_id(s, name),
        contains_object_id(s, name) ==> spec_dedup(s).contains(s[spec_last_index_of(s, name)]),
{
    lemma_dedup_from_distinct(s, Seq::empty());
    lemma_dedup_from_ids(s, Seq::empty(), name);
    if contains_object_id(s, name) {
        lemma_dedup_from_keeps_last(s, Seq::empty(), name);
    }
}

/// Removes objects sharing an identifier with a later one: the list is
/// scanned last-declared first and the first occurrence seen of each
/// identifier is kept.
pub fn deduplicate_objects(objects: Vec<Object>) -> (r: Vec<Object>)
    ensures
        r@ == spec_dedup(objects@),
{
    let ghost input = objects@;
    let mut rest = objects;
    let mut kept: Vec<Object> = Vec::new();
    proof {
        assert(kept@ =~= Seq::<Object>::empty());
    }
    loop
        invariant
            input == objects@,
            spec_dedup_from(rest@, kept@) == spec_dedup(input),
        decreases rest@.len(),
    {
        let ghost rest0 = rest@;
        let x = match rest.pop() {
            Some(x) => x,
            None => {
                return kept;
            },
        };
        proof {
            assert(x == rest0.last());
            assert(rest@ =~= rest0.drop_last());
        }
        // is the identifier already kept?
        let n = kept.len();
        let mut seen = false;
        let mut i: usize = 0;
        while i < n
            invariant
                0 <= i <= n,
                n == kept@.len(),
                seen == exists|j: int|
                    0 <= j < i && spec_object_identifier(#[trigger] kept@[j])
                        == spec_object_identifier(x),
            decreases n - i,
        {
            if str_eq(kept[i].identifier().name.as_str(), x.identifier().name.as_str()) {
                proof {
                    assert(spec_object_identifier(kept@[i as int]) == spec_object_identifier(x));
                }
                seen = true;
            }
            i += 1;
        }
        if !seen {
            kept.push(x);
        }
    }
}

impl Scope {
    /// An empty scope.
    pub fn new() -> (r: Scope)
        ensures
            r.objects@.len() == 0,
            r.types@.len() == 0,
            r.functions@.len() == 0,
            r.methods@.len() == 0,
            r.interfaces@.len() == 0,
    {
        Scope {
            objects: Vec::new(),
            types: Vec::new(),
            functions: Vec::new(),
            methods: Vec::new(),
            interfaces: Vec::new(),
        }
    }

    /// Appends everything a nested scope collected.
    pub fn join(&mut self, other: Scope)
        ensures
            final(self).objects@ == old(self).objects@ + other.objects@,
            final(self).types@ == old(self).types@ + other.types@,
            final(self).functions@ == old(self).functions@ + other.functions@,
            final(self).methods@ == old(self).methods@ + other.methods@,
            final(self).interfaces@ == old(self).interfaces@ + other.interfaces@,
    {
        let Scope { mut objects, mut types, mut functions, mut methods, mut interfaces } = other;
        self.objects.append(&mut objects);
        self.types.append(&mut types);
        self.functions.append(&mut functions);
        self.methods.append(&mut methods);
        self.interfaces.append(&mut interfaces);
    }
}

/// Joins the scopes of nested blocks into the enclosing one, then
/// deduplicates the objects by identifier, keeping each last-declared
/// definition.
pub fn join_scopes(scope: Scope, sub_scopes: Vec<Scope>) -> (r: Scope)
    ensures
        r.objects@ == spec_dedup(scope.objects@ + joined_objects(sub_scopes@)),
        r.types@ == scope.types@ + joined_types(sub_scopes@),
        r.functions@ == scope.functions@ + joined_functions(sub_scopes@),
        r.methods@ == scope.methods@ + joined_methods(sub_scopes@),
        r.interfaces@ == scope.interfaces@ + joined_interfaces(sub_scopes@),
{
    let ghost base_objects = scope.objects@;
    let ghost subs = sub_scopes@;
    let mut current = scope;
    let mut rest = sub_scopes;
    let n = rest.len();
    let mut i: usize = 0;
    proof {
        assert(rest@ =~= subs.skip(0));
        assert(current.objects@ =~= base_objects + joined_objects(subs.take(0)));
        assert(current.types@ =~= scope.types@ + joined_types(subs.take(0)));
        assert(current.functions@ =~= scope.functions@ + joined_functions(subs.take(0)));
        assert(current.methods@ =~= scope.methods@ + joined_methods(subs.take(0)));
        assert(current.interfaces@ =~= scope.interfaces@ + joined_interfaces(subs.take(0)));
    }
    while i < n
        invariant
            0 <= i <= n,
            n == subs.len(),
            subs == sub_scopes@,
            base_objects == scope.objects@,
            rest@ =~= subs.skip(i as int),
            current.objects@ == base_objects + joined_objects(subs.take(i as int)),
            current.types@ == scope.types@ + joined_types(subs.take(i as int)),
            current.functions@ == scope.functions@ + joined_functions(subs.take(i as int)),
            current.methods@ == scope.methods@ + joined_methods(subs.take(i as int)),
            current.interfaces@ == scope.interfaces@ + joined_interfaces(subs.take(i as int)),
        decreases n - i,
    {
        let sub = rest.remove(0);
        proof {
            assert(sub == subs[i as int]);
        }
        current.join(sub);
        proof {
            assert(subs.take(i + 1) =~= subs.take(i as int).push(subs[i as int]));
            lemma_joined_objects_push(subs.take(i as int), subs[i as int]);
            lemma_joined_rest_push(subs.take(i as int), subs[i as int]);
            assert(rest@ =~= subs.skip(i + 1));
            assert((base_objects + joined_objects(subs.take(i as int))) + subs[i as int].objects@
                =~= base_objects + (joined_objects(subs.take(i as int)) + subs[
                i as int].objects@));
            assert((scope.types@ + joined_types(subs.take(i as int))) + subs[i as int].types@
                =~= scope.types@ + (joined_types(subs.take(i as int)) + subs[i as int].types@));
            assert((scope.functions@ + joined_functions(subs.take(i as int))) + subs[
            i as int].functions@ =~= scope.functions@ + (joined_functions(subs.take(i as int))
                + subs[i as int].functions@));
            assert((scope.methods@ + joined_methods(subs.take(i as int))) + subs[
            i as int].methods@ =~= scope.methods@ + (joined_methods(subs.take(i as int)) + subs[
            i as int].methods@));
            assert((scope.interfaces@ + joined_interfaces(subs.take(i as int))) + subs[
            i as int].interfaces@ =~= scope.interfaces@ + (joined_interfaces(
                subs.take(i as int),
            ) + subs[i as int].interfaces@));
        }
        i += 1;
    }
    proof {
        assert(subs.take(n as int) =~= subs);
    }
    let Scope { objects, types, functions, methods, interfaces } = current;
    let objects = deduplicate_objects(objects);
    Scope { objects, types, functions, methods, interfaces }
}

/// The objects of a list of scopes, in order.
pub open spec fn joined_objects(scopes: Seq<Scope>) -> Seq<Object>
    decreases scopes.len(),
{
    if scopes.len() == 0 {
        Seq::empty()
    } else {
        joined_objects(scopes.drop_last()) + scopes.last().objects@
    }
}

proof fn lemma_joined_objects_push(scopes: Seq<Scope>, s: Scope)
    ensures
        joined_objects(scopes.push(s)) == joined_objects(scopes) + s.objects@,
{
    assert(scopes.push(s).drop_last() =~= scopes);
    assert(scopes.push(s).last() == s);
}

/// The type, function, method and interface lists of a list of scopes.
pub open spec fn joined_types(scopes: Seq<Scope>) -> Seq<TypeDefinition>
    decreases scopes.len(),
{
    if scopes.len() == 0 {
        Seq::empty()
    } else {
        joined_types(scopes.drop_last()) + scopes.last().types@
    }
}

pub open spec fn joined_functions(scopes: Seq<Scope>) -> Seq<Function>
    decreases scopes.len(),
{
    if scopes.len() == 0 {
        Seq::empty()
    } else {
        joined_functions(scopes.drop_last()) + scopes.last().functions@
    }
}

pub open spec fn joined_methods(scopes: Seq<Scope>) -> Seq<Function>
    decreases scopes.len(),
{
    if scopes.len() == 0 {
        Seq::empty()
    } else {
        joined_methods(scopes.drop_last()) + scopes.last().methods@
    }
}

pub open spec fn joined_interfaces(scopes: Seq<Scope>) -> Seq<Interface>
    decreases scopes.len(),
{
    if scopes.len() == 0 {
        Seq::empty()
    } else {
        joined_interfaces(scopes.drop_last()) + scopes.last().interfaces@
    }
}

proof fn lemma_joined_rest_push(scopes: Seq<Scope>, s: Scope)
    ensures
        joined_types(scopes.push(s)) == joined_types(scopes) + s.types@,
        joined_functions(scopes.push(s)) == joined_functions(scopes) + s.functions@,
        joined_methods(scopes.push(s)) == joined_methods(scopes) + s.methods@,
        joined_interfaces(scopes.push(s)) == joined_interfaces(scopes) + s.interfaces@,
{
    assert(scopes.push(s).drop_last() =~= scopes);
    assert(scopes.push(s).last() == s);
}

/// One decorator names the static-method marker.
pub fn has_static_decorator(decorators: &Vec<String>) -> (r: bool)
    ensures
        r == exists|i: int| 0 <= i < decorators@.len() && (#[trigger] decorators@[i])@
            == "staticmethod"@,
{
    let n = decorators.len();
    let mut i: usize = 0;
    while i < n
        invariant
            0 <= i <= n,
            n == decorators@.len(),
            forall|j: int| 0 <= j < i ==> (#[trigger] decorators@[j])@ != "staticmethod"@,
        decreases n - i,
    {
        if str_eq(decorators[i].as_str(), "staticmethod") {
            return true;
        }
        i += 1;
    }
    false
}

/// The first argument is the receiver.
pub fn has_self(arguments: &Vec<String>) -> (r: bool)
    ensures
        r == (arguments@.len() > 0 && arguments@[0]@ == "self"@),
{
    if arguments.len() == 0 {
        false
    } else {
        str_eq(arguments[0].as_str(), "self")
    }
}

/// A function definition is static when it carries the static-method
/// decorator or does not take the receiver first.
pub fn is_static_method(decorators: &Vec<String>, arguments: &Vec<String>) -> (r: bool)
    ensures
        r == ((exists|i: int| 0 <= i < decorators@.len() && (#[trigger] decorators@[i])@
            == "staticmethod"@) || !(arguments@.len() > 0 && arguments@[0]@ == "self"@)),
{
    has_static_decorator(decorators) || !has_self(arguments)
}

} // verus!
