use vstd::prelude::*;
use crate::error::Error;
use crate::module::{Module, spec_type_key};
use crate::object::{Implementation, Object};
use crate::path::{Path, path_le, lemma_path_le_total, lemma_path_le_transitive,
    lemma_path_le_reflexive};
use crate::type_definition::{TypeDefinition, spec_definition_identifier};
use crate::types::Type;

verus! {

/// One item a frontend collects from a scope: a type definition, or an
/// implementation block for some type.
#[derive(Debug)]
pub enum ScopeItem {
    Definition(TypeDefinition),
    Implementation(Implementation),
}

/// The path an item is keyed by: the declared identifier of a
/// definition; the self type's path, behind any references, of an
/// implementation block.
pub open spec fn spec_item_key(it: ScopeItem) -> Seq<Seq<char>> {
    match it {
        ScopeItem::Definition(d) => seq![spec_definition_identifier(d)],
        ScopeItem::Implementation(im) => spec_type_key(im.self_),
    }
}

pub open spec fn spec_is_definition(it: ScopeItem) -> bool {
    it is Definition
}

/// The definition the last definition item keyed by `key` supplies.
pub open spec fn spec_last_definition(items: Seq<ScopeItem>, key: Seq<Seq<char>>) -> Option<
    TypeDefinition,
>
    decreases items.len(),
{
    if items.len() == 0 {
        None
    } else {
        match items.last() {
            ScopeItem::Definition(d) => if spec_item_key(items.last()) == key {
                Some(d)
            } else {
                spec_last_definition(items.drop_last(), key)
            },
            _ => spec_last_definition(items.drop_last(), key),
        }
    }
}

/// All implementation blocks keyed by `key`, in item order.
pub open spec fn spec_implementations_for(items: Seq<ScopeItem>, key: Seq<Seq<char>>) -> Seq<
    Implementation,
>
    decreases items.len(),
{
    if items.len() == 0 {
        Seq::empty()
    } else {
        let front = spec_implementations_for(items.drop_last(), key);
        match items.last() {
            ScopeItem::Implementation(im) => if spec_item_key(items.last()) == key {
                front.push(im)
            } else {
                front
            },
            _ => front,
        }
    }
}

/// Some item of `items` is keyed by `key`.
pub open spec fn spec_key_occurs(items: Seq<ScopeItem>, key: Seq<Seq<char>>) -> bool {
    exists|i: int| 0 <= i < items.len() && spec_item_key(#[trigger] items[i]) == key
}

/// An implementation block whose key no definition item supplies.
pub open spec fn spec_missing_definition(items: Seq<ScopeItem>) -> bool {
    exists|i: int|
        0 <= i < items.len() && !spec_is_definition(#[trigger] items[i]) && spec_last_definition(
            items,
            spec_item_key(items[i]),
        ) is None
}

/// Strictly sorted by path order: sorted, and all paths distinct.
pub open spec fn spec_strictly_sorted(objs: Seq<Object>) -> bool {
    forall|i: int, j: int|
        0 <= i < j < objs.len() ==> path_le((#[trigger] objs[i]).path@, (#[trigger] objs[j]).path@)
            && objs[i].path@ != objs[j].path@
}

/// Every item's key appears among the objects' paths.
pub open spec fn spec_all_keys_present(items: Seq<ScopeItem>, objs: Seq<Object>) -> bool {
    forall|i: int|
        0 <= i < items.len() ==> exists|j: int|
            0 <= j < objs.len() && (#[trigger] objs[j]).path@ == spec_item_key(
                #[trigger] items[i],
            )
}

/// What one merged object owes the items: its path occurs, its
/// definition is the last one declared for that path, and its
/// implementation blocks are all of that path's, in order.
pub open spec fn spec_merged_object(items: Seq<ScopeItem>, o: Object) -> bool {
    &&& spec_key_occurs(items, o.path@)
    &&& spec_last_definition(items, o.path@) == Some(o.definition)
    &&& o.implementations@ == spec_implementations_for(items, o.path@)
}

/// A definition item keyed by `key` guarantees a last definition.
proof fn lemma_definition_item_found(items: Seq<ScopeItem>, i: int)
    requires
        0 <= i < items.len(),
        spec_is_definition(items[i]),
    ensures
        spec_last_definition(items, spec_item_key(items[i])) is Some,
    decreases items.len(),
{
    if i < items.len() - 1 {
        assert(items.drop_last()[i] == items[i]);
        lemma_definition_item_found(items.drop_last(), i);
    }
}

/// A key that occurs nowhere has no definition and no implementations.
proof fn lemma_unknown_key(items: Seq<ScopeItem>, key: Seq<Seq<char>>)
    requires
        !spec_key_occurs(items, key),
    ensures
        spec_last_definition(items, key) is None,
        spec_implementations_for(items, key) == Seq::<Implementation>::empty(),
    decreases items.len(),
{
    if items.len() > 0 {
        assert(spec_item_key(items[items.len() - 1]) != key);
        assert forall|i: int| 0 <= i < items.drop_last().len() implies spec_item_key(
            #[trigger] items.drop_last()[i],
        ) != key by {
            assert(items.drop_last()[i] == items[i]);
        }
        lemma_unknown_key(items.drop_last(), key);
        assert(spec_implementations_for(items, key) =~= Seq::<Implementation>::empty());
    }
}

/// Appending an item extends the keys that occur by the item's key.
proof fn lemma_key_occurs_push(items: Seq<ScopeItem>, it: ScopeItem, key: Seq<Seq<char>>)
    ensures
        spec_key_occurs(items.push(it), key) <==> (spec_key_occurs(items, key) || spec_item_key(it)
            == key),
{
    if spec_key_occurs(items, key) {
        let w = choose|i: int|
            0 <= i < items.len() && spec_item_key(#[trigger] items[i]) == key;
        assert(items.push(it)[w] == items[w]);
    }
    if spec_item_key(it) == key {
        assert(items.push(it)[items.len() as int] == it);
    }
    if spec_key_occurs(items.push(it), key) {
        let w = choose|i: int|
            0 <= i < items.push(it).len() && spec_item_key(#[trigger] items.push(it)[i]) == key;
        if w < items.len() {
            assert(items[w] == items.push(it)[w]);
        }
    }
}

/// Draft of an object while the items of its path are being collected.
struct Draft {
    path: Path,
    definition: Option<TypeDefinition>,
    implementations: Vec<Implementation>,
}

/// The path of segment names behind any references of a type, as a
/// fresh value.
fn type_key_path(t: &Type) -> (r: Path)
    ensures
        r@ == spec_type_key(*t),
    decreases *t,
{
    match t {
        Type::Path(p) => p.clone(),
        Type::Reference(q) => type_key_path(&q.type_),
    }
}

impl Module {
    /// Collects the type definitions and implementation blocks of one
    /// scope into objects, merging by path: a later definition replaces
    /// an earlier one, implementation blocks accumulate in order, and
    /// the result is sorted by path. An implementation block whose path
    /// never receives a definition is an error.
    #[verifier::rlimit(60)]
    pub fn group_objects(items: Vec<ScopeItem>) -> (r: Result<Vec<Object>, Error>)
        ensures
            r is Ok <==> !spec_missing_definition(items@),
            r matches Ok(objs) ==> spec_strictly_sorted(objs@),
            r matches Ok(objs) ==> forall|j: int|
                0 <= j < objs@.len() ==> spec_merged_object(items@, #[trigger] objs@[j]),
            r matches Ok(objs) ==> spec_all_keys_present(items@, objs@),
    {
        let ghost input = items@;
        let mut rest = items;
        let mut drafts: Vec<Draft> = Vec::new();
        let n = rest.len();
        let mut i: usize = 0;
        proof {
            assert(rest@ =~= input.skip(0));
        }
        while i < n
            invariant
                0 <= i <= n,
                n == input.len(),
                input == items@,
                rest@ =~= input.skip(i as int),
                forall|a: int, b: int|
                    0 <= a < b < drafts@.len() ==> (#[trigger] drafts@[a]).path@ != (
                    #[trigger] drafts@[b]).path@,
                forall|a: int| 0 <= a < drafts@.len() ==> spec_key_occurs(
                    input.take(i as int),
                    (#[trigger] drafts@[a]).path@,
                ),
                forall|a: int| 0 <= a < drafts@.len() ==> (#[trigger] drafts@[a]).definition
                    == spec_last_definition(input.take(i as int), drafts@[a].path@),
                forall|a: int| 0 <= a < drafts@.len() ==> (#[trigger] drafts@[a]).implementations@
                    == spec_implementations_for(input.take(i as int), drafts@[a].path@),
                forall|q: int| 0 <= q < i ==> exists|a: int|
                    0 <= a < drafts@.len() && (#[trigger] drafts@[a]).path@ == spec_item_key(
                        #[trigger] input[q],
                    ),
            decreases n - i,
        {
            let item = rest.remove(0);
            let ghost processed0 = input.take(i as int);
            let ghost processed1 = input.take(i + 1);
            proof {
                assert(item == input[i as int]);
                assert(rest@ =~= input.skip(i + 1));
                assert(processed1 =~= processed0.push(input[i as int]));
                assert(processed1.drop_last() =~= processed0);
                assert(processed1.last() == input[i as int]);
            }
            let key: Path = match &item {
                ScopeItem::Definition(d) => Path::from_identifier(d.identifier().clone()),
                ScopeItem::Implementation(im) => type_key_path(&im.self_),
            };
            proof {
                assert(key@ =~= spec_item_key(item));
            }
            // find the draft this item belongs to
            let dn = drafts.len();
            let mut at: usize = 0;
            while at < dn && !(drafts[at].path == key)
                invariant
                    0 <= at <= dn,
                    dn == drafts@.len(),
                    forall|a: int| 0 <= a < at ==> (#[trigger] drafts@[a]).path@ != key@,
                decreases dn - at,
            {
                at += 1;
            }
            if at < dn {
                // merge into the existing draft
                let ghost old_drafts = drafts@;
                let mut draft = drafts.remove(at);
                let ghost kk = draft.path@;
                proof {
                    assert(draft == old_drafts[at as int]);
                    assert(kk == key@);
                }
                match item {
                    ScopeItem::Definition(d) => {
                        draft.definition = Some(d);
                        proof {
                            assert(spec_last_definition(processed1, kk) == Some(d));
                            assert(spec_implementations_for(processed1, kk)
                                == spec_implementations_for(processed0, kk));
                        }
                    },
                    ScopeItem::Implementation(im) => {
                        proof {
                            assert(spec_implementations_for(processed1, kk)
                                == spec_implementations_for(processed0, kk).push(im));
                            assert(spec_last_definition(processed1, kk) == spec_last_definition(
                                processed0,
                                kk,
                            ));
                        }
                        draft.implementations.push(im);
                    },
                }
                drafts.insert(at, draft);
                proof {
                    assert(drafts@ =~= old_drafts.update(at as int, draft));
                    assert forall|a: int| 0 <= a < drafts@.len() implies {
                        &&& spec_key_occurs(processed1, (#[trigger] drafts@[a]).path@)
                        &&& drafts@[a].definition == spec_last_definition(
                            processed1,
                            drafts@[a].path@,
                        )
                        &&& drafts@[a].implementations@ == spec_implementations_for(
                            processed1,
                            drafts@[a].path@,
                        )
                    } by {
                        lemma_key_occurs_push(processed0, input[i as int], drafts@[a].path@);
                        if a != at {
                            assert(drafts@[a] == old_drafts[a]);
                            assert(old_drafts[a].path@ != kk);
                        }
                    }
                    assert forall|q: int| 0 <= q < i + 1 implies exists|a: int|
                        0 <= a < drafts@.len() && (#[trigger] drafts@[a]).path@ == spec_item_key(
                            #[trigger] input[q],
                        ) by {
                        if q < i {
                            let w = choose|a: int|
                                0 <= a < old_drafts.len() && (#[trigger] old_drafts[a]).path@
                                    == spec_item_key(input[q]);
                            assert(drafts@[w].path@ == old_drafts[w].path@);
                        } else {
                            assert(drafts@[at as int].path@ == spec_item_key(input[q]));
                        }
                    }
                }
            } else {
                // no draft yet: the key is new
                proof {
                    assert forall|p: int| 0 <= p < i implies spec_item_key(#[trigger] input[p])
                        != key@ by {
                        let w = choose|a: int|
                            0 <= a < drafts@.len() && (#[trigger] drafts@[a]).path@
                                == spec_item_key(input[p]);
                    }
                    assert(!spec_key_occurs(processed0, key@)) by {
                        if spec_key_occurs(processed0, key@) {
                            let w = choose|q: int|
                                0 <= q < processed0.len() && spec_item_key(#[trigger] processed0[q])
                                    == key@;
                            assert(processed0[w] == input[w]);
                        }
                    }
                    lemma_unknown_key(processed0, key@);
                }
                let draft = match item {
                    ScopeItem::Definition(d) => Draft {
                        path: key,
                        definition: Some(d),
                        implementations: Vec::new(),
                    },
                    ScopeItem::Implementation(im) => {
                        let mut v: Vec<Implementation> = Vec::new();
                        v.push(im);
                        proof {
                            assert(spec_implementations_for(processed1, key@)
                                =~= spec_implementations_for(processed0, key@).push(im));
                            assert(v@ =~= spec_implementations_for(processed0, key@).push(im));
                        }
                        Draft { path: key, definition: None, implementations: v }
                    },
                };
                let ghost old_drafts = drafts@;
                drafts.push(draft);
                proof {
                    assert forall|a: int| 0 <= a < drafts@.len() implies {
                        &&& spec_key_occurs(processed1, (#[trigger] drafts@[a]).path@)
                        &&& drafts@[a].definition == spec_last_definition(
                            processed1,
                            drafts@[a].path@,
                        )
                        &&& drafts@[a].implementations@ == spec_implementations_for(
                            processed1,
                            drafts@[a].path@,
                        )
                    } by {
                        lemma_key_occurs_push(processed0, input[i as int], drafts@[a].path@);
                        if a < old_drafts.len() {
                            assert(drafts@[a] == old_drafts[a]);
                            assert(old_drafts[a].path@ != key@);
                        }
                    }
                    assert forall|q: int| 0 <= q < i + 1 implies exists|a: int|
                        0 <= a < drafts@.len() && (#[trigger] drafts@[a]).path@ == spec_item_key(
                            #[trigger] input[q],
                        ) by {
                        if q < i {
                            let w = choose|a: int|
                                0 <= a < old_drafts.len() && (#[trigger] old_drafts[a]).path@
                                    == spec_item_key(input[q]);
                            assert(drafts@[w].path@ == old_drafts[w].path@);
                        } else {
                            assert(drafts@[drafts@.len() - 1].path@ == spec_item_key(input[q]));
                        }
                    }
                }
            }
            i += 1;
        }
        proof {
            assert(input.take(n as int) =~= input);
        }
        // finalize: order by path and require every draft's definition
        let mut objects: Vec<Object> = Vec::new();
        while drafts.len() > 0
            invariant
                input == items@,
                forall|a: int, b: int|
                    0 <= a < b < drafts@.len() ==> (#[trigger] drafts@[a]).path@ != (
                    #[trigger] drafts@[b]).path@,
                forall|a: int| 0 <= a < drafts@.len() ==> spec_key_occurs(
                    input,
                    (#[trigger] drafts@[a]).path@,
                ),
                forall|a: int| 0 <= a < drafts@.len() ==> (#[trigger] drafts@[a]).definition
                    == spec_last_definition(input, drafts@[a].path@),
                forall|a: int| 0 <= a < drafts@.len() ==> (#[trigger] drafts@[a]).implementations@
                    == spec_implementations_for(input, drafts@[a].path@),
                forall|q: int| 0 <= q < input.len() ==> (exists|a: int|
                    0 <= a < drafts@.len() && (#[trigger] drafts@[a]).path@ == spec_item_key(
                        #[trigger] input[q],
                    )) || (exists|j: int|
                    0 <= j < objects@.len() && (#[trigger] objects@[j]).path@ == spec_item_key(
                        #[trigger] input[q],
                    )),
                spec_strictly_sorted(objects@),
                forall|j: int| 0 <= j < objects@.len() ==> spec_merged_object(
                    input,
                    #[trigger] objects@[j],
                ),
                forall|j: int, a: int|
                    0 <= j < objects@.len() && 0 <= a < drafts@.len() ==> path_le(
                        (#[trigger] objects@[j]).path@,
                        (#[trigger] drafts@[a]).path@,
                    ) && objects@[j].path@ != drafts@[a].path@,
            decreases drafts@.len(),
        {
            // index of the draft with the least path
            let dn = drafts.len();
            let mut m: usize = 0;
            let mut t: usize = 1;
            proof {
                lemma_path_le_reflexive(drafts@[0].path@);
            }
            while t < dn
                invariant
                    0 <= m < t <= dn,
                    dn == drafts@.len(),
                    forall|a: int| 0 <= a < t ==> path_le(
                        (#[trigger] drafts@[m as int]).path@,
                        drafts@[a].path@,
                    ),
                decreases dn - t,
            {
                if drafts[t].path.le(&drafts[m].path) {
                    proof {
                        assert forall|a: int| 0 <= a < t + 1 implies path_le(
                            (#[trigger] drafts@[t as int]).path@,
                            drafts@[a].path@,
                        ) by {
                            if a == t {
                                lemma_path_le_reflexive(drafts@[t as int].path@);
                            } else {
                                lemma_path_le_transitive(
                                    drafts@[t as int].path@,
                                    drafts@[m as int].path@,
                                    drafts@[a].path@,
                                );
                            }
                        }
                    }
                    m = t;
                } else {
                    proof {
                        lemma_path_le_total(drafts@[t as int].path@, drafts@[m as int].path@);
                    }
                }
                t += 1;
            }
            let ghost old_drafts = drafts@;
            let draft = drafts.remove(m);
            proof {
                assert(draft == old_drafts[m as int]);
                assert forall|a: int| 0 <= a < drafts@.len() implies path_le(
                    draft.path@,
                    (#[trigger] drafts@[a]).path@,
                ) && draft.path@ != drafts@[a].path@ by {
                    if a < m {
                        assert(drafts@[a] == old_drafts[a]);
                    } else {
                        assert(drafts@[a] == old_drafts[a + 1]);
                    }
                }
            }
            let Draft { path, definition, implementations } = draft;
            let definition = match definition {
                Some(d) => d,
                None => {
                    proof {
                        let w = choose|q: int|
                            0 <= q < input.len() && spec_item_key(#[trigger] input[q]) == draft.path@;
                        if spec_is_definition(input[w]) {
                            lemma_definition_item_found(input, w);
                        }
                    }
                    return Err(
                        Error::Message(
                            String::from_str("type definition not found for an implementation"),
                        ),
                    );
                },
            };
            let object = Object { path, definition, implementations };
            let ghost old_objects = objects@;
            objects.push(object);
            proof {
                assert(object.path@ == draft.path@);
                assert(spec_merged_object(input, object));
                assert forall|q: int|
                    0 <= q < input.len() implies (exists|a: int|
                    0 <= a < drafts@.len() && (#[trigger] drafts@[a]).path@ == spec_item_key(
                        #[trigger] input[q],
                    )) || (exists|j: int|
                    0 <= j < objects@.len() && (#[trigger] objects@[j]).path@ == spec_item_key(
                        #[trigger] input[q],
                    )) by {
                    if exists|a: int|
                        0 <= a < old_drafts.len() && (#[trigger] old_drafts[a]).path@
                            == spec_item_key(input[q]) {
                        let w = choose|a: int|
                            0 <= a < old_drafts.len() && (#[trigger] old_drafts[a]).path@
                                == spec_item_key(input[q]);
                        if w == m {
                            assert(objects@[objects@.len() - 1].path@ == spec_item_key(input[q]));
                        } else if w < m {
                            assert(drafts@[w] == old_drafts[w]);
                        } else {
                            assert(drafts@[w - 1] == old_drafts[w]);
                        }
                    } else {
                        let w = choose|j: int|
                            0 <= j < old_objects.len() && (#[trigger] old_objects[j]).path@
                                == spec_item_key(input[q]);
                        assert(objects@[w] == old_objects[w]);
                    }
                }
            }
        }
        proof {
            assert forall|q: int| 0 <= q < items@.len() implies exists|j: int|
                0 <= j < objects@.len() && (#[trigger] objects@[j]).path@ == spec_item_key(
                    #[trigger] items@[q],
                ) by {
                assert(input[q] == items@[q]);
            }
            assert(spec_all_keys_present(items@, objects@));
            if spec_missing_definition(input) {
                let w = choose|i: int|
                    0 <= i < input.len() && !spec_is_definition(#[trigger] input[i])
                        && spec_last_definition(input, spec_item_key(input[i])) is None;
                let j = choose|j: int|
                    0 <= j < objects@.len() && (#[trigger] objects@[j]).path@ == spec_item_key(
                        input[w],
                    );
                assert(spec_merged_object(input, objects@[j]));
            }
        }
        Ok(objects)
    }
}

} // verus!
