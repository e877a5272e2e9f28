use ligen::attribute::Attributes;
use ligen::function::Function;
use ligen::identifier::Identifier;
use ligen::merge::ScopeItem;
use ligen::module::Module;
use ligen::object::Implementation;
use ligen::parameter::Parameter;
use ligen::type_definition::{Field, Structure, TypeDefinition};
use ligen::types::{Mutability, Reference, ReferenceKind, Type};
use ligen::visibility::Visibility;

fn field(name: &str, type_: Type) -> Field {
    Field {
        attributes: Attributes::empty(),
        visibility: Visibility::Public,
        identifier: Some(Identifier::new(name)),
        type_,
    }
}

fn point_definition() -> TypeDefinition {
    TypeDefinition::Structure(Structure {
        attributes: Attributes::empty(),
        visibility: Visibility::Public,
        identifier: Identifier::new("Point"),
        fields: vec![field("x", Type::i32()), field("y", Type::i32())],
    })
}

fn plain_structure(name: &str) -> TypeDefinition {
    TypeDefinition::Structure(Structure {
        attributes: Attributes::empty(),
        visibility: Visibility::Public,
        identifier: Identifier::new(name),
        fields: Vec::new(),
    })
}

fn receiver() -> Parameter {
    Parameter {
        attributes: Attributes::empty(),
        identifier: Identifier::new("self"),
        type_: Type::Reference(Reference {
            kind: ReferenceKind::Borrow,
            mutability: Mutability::Constant,
            type_: Box::new(Type::named("Self")),
        }),
    }
}

fn len_method() -> Function {
    let bare = Function::new(
        Attributes::empty(),
        Visibility::Public,
        None,
        Identifier::new("len"),
        vec![receiver()],
        Some(Type::i32()),
    );
    bare.into_method(Type::named("Point"))
}

fn point_implementation() -> Implementation {
    Implementation {
        attributes: Attributes::empty(),
        self_: Type::named("Point"),
        items: vec![len_method()],
    }
}

#[test]
fn merges_definition_with_implementation() {
    let items = vec![
        ScopeItem::Definition(point_definition()),
        ScopeItem::Implementation(point_implementation()),
    ];
    let objects = Module::group_objects(items).unwrap();
    assert_eq!(objects.len(), 1);
    let point = &objects[0];
    assert_eq!(point.path.segments.len(), 1);
    assert_eq!(point.path.segments[0].name, "Point");
    assert_eq!(point.definition, point_definition());
    assert_eq!(point.implementations.len(), 1);
    assert_eq!(point.implementations[0].items.len(), 1);
    let method = &point.implementations[0].items[0];
    // the receiver was stripped into the method marker
    assert!(method.inputs.is_empty());
    let marker = method.method.as_ref().unwrap();
    assert_eq!(marker.mutability, Mutability::Constant);
    assert_eq!(marker.owner, Type::named("Point"));
}

#[test]
fn later_definition_replaces_earlier() {
    let richer = point_definition();
    let items = vec![
        ScopeItem::Definition(plain_structure("Point")),
        ScopeItem::Implementation(point_implementation()),
        ScopeItem::Definition(richer),
    ];
    let objects = Module::group_objects(items).unwrap();
    assert_eq!(objects.len(), 1);
    assert_eq!(objects[0].definition, point_definition());
    assert_eq!(objects[0].implementations.len(), 1);
}

#[test]
fn implementation_without_definition_is_an_error() {
    let items = vec![ScopeItem::Implementation(point_implementation())];
    assert!(Module::group_objects(items).is_err());
}

#[test]
fn merged_objects_are_sorted_by_path() {
    let items = vec![
        ScopeItem::Definition(plain_structure("Zeta")),
        ScopeItem::Definition(plain_structure("Alpha")),
        ScopeItem::Definition(plain_structure("Mid")),
    ];
    let objects = Module::group_objects(items).unwrap();
    let names: Vec<String> = objects.iter().map(|o| o.path.segments[0].name.clone()).collect();
    assert_eq!(names, vec!["Alpha".to_string(), "Mid".to_string(), "Zeta".to_string()]);
}
