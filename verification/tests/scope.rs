use ligen::attribute::Attributes;
use ligen::identifier::Identifier;
use ligen::object::Object;
use ligen::path::Path;
use ligen::scope::{Scope, deduplicate_objects, has_self, has_static_decorator, is_static_method,
    join_scopes};
use ligen::type_definition::{Field, Structure, TypeDefinition};
use ligen::types::Type;
use ligen::visibility::Visibility;

fn object_with_field(name: &str, field_name: &str) -> Object {
    Object {
        path: Path::from_name(name),
        definition: TypeDefinition::Structure(Structure {
            attributes: Attributes::empty(),
            visibility: Visibility::Public,
            identifier: Identifier::new(name),
            fields: vec![
                Field {
                    attributes: Attributes::empty(),
                    visibility: Visibility::Public,
                    identifier: Some(Identifier::new(field_name)),
                    type_: Type::i32(),
                },
            ],
        }),
        implementations: Vec::new(),
    }
}

fn object(name: &str) -> Object {
    object_with_field(name, "value")
}

#[test]
fn deduplicate_keeps_the_last_declared_definition() {
    // [Z, Y, Z', X]: scanned last-declared first, the newer Z' wins
    let objects = vec![
        object_with_field("Z", "old"),
        object("Y"),
        object_with_field("Z", "new"),
        object("X"),
    ];
    let kept = deduplicate_objects(objects);
    assert_eq!(kept.len(), 3);
    let names: Vec<String> =
        kept.iter().map(|o| o.definition.identifier().name.clone()).collect();
    assert_eq!(names, vec!["X".to_string(), "Z".to_string(), "Y".to_string()]);
    assert_eq!(kept[1], object_with_field("Z", "new"));
}

#[test]
fn join_scopes_merges_and_deduplicates() {
    let mut outer = Scope::new();
    outer.objects.push(object("A"));
    let mut nested = Scope::new();
    nested.objects.push(object_with_field("A", "newer"));
    nested.objects.push(object("B"));
    let joined = join_scopes(outer, vec![nested]);
    assert_eq!(joined.objects.len(), 2);
    assert_eq!(joined.objects[0], object("B"));
    assert_eq!(joined.objects[1], object_with_field("A", "newer"));
}

#[test]
fn static_method_detection() {
    let none: Vec<String> = vec![];
    let with_self = vec!["self".to_string(), "count".to_string()];
    let without_self = vec!["count".to_string()];
    let marker = vec!["staticmethod".to_string()];
    assert!(has_static_decorator(&marker));
    assert!(!has_static_decorator(&none));
    assert!(has_self(&with_self));
    assert!(!has_self(&without_self));
    assert!(!has_self(&none));
    assert!(is_static_method(&marker, &with_self));
    assert!(is_static_method(&none, &without_self));
    assert!(!is_static_method(&none, &with_self));
}
