use ligen::attribute::Attributes;
use ligen::function::Function;
use ligen::identifier::Identifier;
use ligen::parameter::Parameter;
use ligen::parser::{IdentifierParser, SymbolParser};
use ligen::type_definition::TypeDefinition;
use ligen::types::{Mutability, Reference, ReferenceKind, Type};
use ligen::visibility::Visibility;

#[test]
fn primitive_predicates() {
    assert!(Type::boolean().is_boolean());
    assert!(Type::character().is_character());
    assert!(Type::i32().is_integer());
    assert!(Type::u64().is_unsigned_integer());
    assert!(Type::float64().is_float());
    assert!(Type::i8().is_number());
    assert!(Type::string().is_string());
    assert!(Type::boolean().is_primitive());
    assert!(Type::u128().is_primitive());
    assert!(!Type::string().is_primitive());
    assert!(!Type::isize().is_integer());
    assert!(!Type::usize().is_unsigned_integer());
    assert!(!Type::float16().is_float());
    assert!(!Type::named("Widget").is_primitive());
}

#[test]
fn type_equality_is_structural() {
    assert_eq!(Type::i32(), Type::named("i32"));
    assert_ne!(Type::i32(), Type::i64());
    let reference = Type::Reference(Reference {
        kind: ReferenceKind::Borrow,
        mutability: Mutability::Mutable,
        type_: Box::new(Type::string()),
    });
    assert_eq!(reference, reference.clone());
    assert_ne!(reference, Type::string());
    assert!(reference.is(&reference.clone()));
}

#[test]
fn drop_reference_unwraps() {
    let reference = Type::Reference(Reference {
        kind: ReferenceKind::Pointer,
        mutability: Mutability::Constant,
        type_: Box::new(Type::named("Widget")),
    });
    assert_eq!(reference.drop_reference(), Type::named("Widget"));
    assert_eq!(Type::i32().drop_reference(), Type::i32());
}

#[test]
fn parameter_mutability_follows_the_type() {
    let constant = Parameter {
        attributes: Attributes::empty(),
        identifier: Identifier::new("a"),
        type_: Type::i32(),
    };
    assert_eq!(constant.mutability(), Mutability::Constant);
    let mutable = Parameter {
        attributes: Attributes::empty(),
        identifier: Identifier::new("b"),
        type_: Type::Reference(Reference {
            kind: ReferenceKind::Borrow,
            mutability: Mutability::Mutable,
            type_: Box::new(Type::string()),
        }),
    };
    assert_eq!(mutable.mutability(), Mutability::Mutable);
    let shared = Parameter {
        attributes: Attributes::empty(),
        identifier: Identifier::new("c"),
        type_: Type::Reference(Reference {
            kind: ReferenceKind::Borrow,
            mutability: Mutability::Constant,
            type_: Box::new(Type::string()),
        }),
    };
    assert_eq!(shared.mutability(), Mutability::Constant);
}

fn mutable_receiver() -> Parameter {
    Parameter {
        attributes: Attributes::empty(),
        identifier: Identifier::new("self"),
        type_: Type::Reference(Reference {
            kind: ReferenceKind::Borrow,
            mutability: Mutability::Mutable,
            type_: Box::new(Type::named("Self")),
        }),
    }
}

#[test]
fn into_method_strips_the_receiver() {
    let function = Function::new(
        Attributes::empty(),
        Visibility::Public,
        None,
        Identifier::new("tick"),
        vec![mutable_receiver()],
        None,
    );
    let method = function.into_method(Type::named("Clock"));
    assert!(method.inputs.is_empty());
    let marker = method.method.unwrap();
    assert_eq!(marker.mutability, Mutability::Mutable);
    assert_eq!(marker.owner, Type::named("Clock"));
}

#[test]
fn into_method_without_receiver_is_constant() {
    let argument = Parameter {
        attributes: Attributes::empty(),
        identifier: Identifier::new("amount"),
        type_: Type::i32(),
    };
    let function = Function::new(
        Attributes::empty(),
        Visibility::Public,
        None,
        Identifier::new("make"),
        vec![argument.clone()],
        Some(Type::named("Clock")),
    );
    let method = function.into_method(Type::named("Clock"));
    assert_eq!(method.inputs.len(), 1);
    assert_eq!(method.inputs[0], argument);
    assert_eq!(method.method.unwrap().mutability, Mutability::Constant);
}

#[test]
fn identifier() {
    let parsed = IdentifierParser.parse("identifier").expect("Failed to parse identifier.");
    assert_eq!(parsed, Identifier::new("identifier"));
}

#[test]
fn identifier_parser_rejects_invalid_text() {
    assert!(IdentifierParser.parse("not an identifier").is_err());
    assert!(IdentifierParser.parse("3starts_with_digit").is_err());
    assert!(IdentifierParser.parse("").is_err());
}

#[test]
fn symbol_parser_builds_a_bare_definition() {
    let definition = SymbolParser.parse("Widget").unwrap();
    match definition {
        TypeDefinition::Structure(s) => {
            assert_eq!(s.identifier, Identifier::new("Widget"));
            assert!(s.fields.is_empty());
            assert_eq!(s.visibility, Visibility::Public);
        },
        _ => panic!("expected a structure"),
    }
    assert!(SymbolParser.parse("not a symbol").is_err());
}
