use ligen::attribute::{Attribute, Attributes};
use ligen::identifier::Identifier;
use ligen::import::Import;
use ligen::module::Module;
use ligen::object::Object;
use ligen::path::Path;
use ligen::type_definition::{Structure, TypeDefinition};
use ligen::visibility::Visibility;

fn path_of(names: &[&str]) -> Path {
    let mut path = Path::empty();
    for name in names {
        path.push_back(Identifier::new(name));
    }
    path
}

fn structure(name: &str, visibility: Visibility) -> TypeDefinition {
    TypeDefinition::Structure(Structure {
        attributes: Attributes::empty(),
        visibility,
        identifier: Identifier::new(name),
        fields: Vec::new(),
    })
}

fn object(name: &str, visibility: Visibility) -> Object {
    Object {
        path: path_of(&[name]),
        definition: structure(name, visibility),
        implementations: Vec::new(),
    }
}

fn import(segments: &[&str], visibility: Visibility, renaming: Option<&str>) -> Import {
    Import {
        attributes: Attributes::empty(),
        visibility,
        renaming: renaming.map(Identifier::new),
        path: path_of(segments),
    }
}

fn named_module(name: &str) -> Module {
    Module::new(Identifier::new(name))
}

/// The module tree of the wildcard test: a root with an `object` module,
/// and an `objects` module whose own imports re-export nested modules.
fn wildcard_fixture() -> Module {
    let mut deeper = named_module("deeper");
    deeper.objects.push(object("Object5", Visibility::Public));
    deeper.objects.push(object("Object6", Visibility::Public));
    deeper.objects.push(object("Object7", Visibility::Private));

    let mut deeper2 = named_module("deeper2");
    deeper2.objects.push(object("Object8", Visibility::Public));
    deeper2.objects.push(object("Object9", Visibility::Public));
    deeper2.objects.push(object("ObjectA", Visibility::Public));

    let mut objects = named_module("objects");
    objects.objects.push(object("Object2", Visibility::Public));
    objects.objects.push(object("Object3", Visibility::Public));
    objects.objects.push(object("Object4", Visibility::Private));
    objects.modules.push(deeper);
    objects.modules.push(deeper2);
    objects.imports.push(import(&["deeper", "*"], Visibility::Public, None));
    objects.imports.push(import(&["deeper2", "Object8"], Visibility::Public, None));
    objects.imports.push(import(&["deeper2", "Object9"], Visibility::Inherited, None));
    objects.imports.push(import(&["deeper2", "ObjectA"], Visibility::Public, Some("ObjectTen")));

    let mut object_module = named_module("object");
    object_module.objects.push(object("Object1", Visibility::Public));

    let mut root = named_module("root");
    root.modules.push(object_module);
    root.modules.push(objects);
    root.imports.push(import(&["object", "Object1"], Visibility::Public, None));
    root.imports.push(import(&["objects", "*"], Visibility::Public, None));
    root
}

#[test]
fn imports() {
    let mut module = wildcard_fixture();
    module.replace_wildcard_imports();

    let expected_root: Vec<Import> = vec![
        import(&["object", "Object1"], Visibility::Public, None),
        import(&["objects", "Object2"], Visibility::Public, None),
        import(&["objects", "Object3"], Visibility::Public, None),
        import(&["objects", "Object8"], Visibility::Public, None),
        import(&["objects", "ObjectTen"], Visibility::Public, None),
        import(&["objects", "Object5"], Visibility::Public, None),
        import(&["objects", "Object6"], Visibility::Public, None),
    ];
    assert_eq!(module.imports, expected_root);

    let objects = module.find_module(&path_of(&["objects"])).unwrap();
    let expected_objects: Vec<Import> = vec![
        import(&["deeper2", "Object8"], Visibility::Public, None),
        import(&["deeper2", "Object9"], Visibility::Inherited, None),
        import(&["deeper2", "ObjectA"], Visibility::Public, Some("ObjectTen")),
        import(&["deeper", "Object5"], Visibility::Public, None),
        import(&["deeper", "Object6"], Visibility::Public, None),
    ];
    assert_eq!(objects.imports, expected_objects);
}

#[test]
fn wildcard_expansion_is_idempotent() {
    let mut once = wildcard_fixture();
    once.replace_wildcard_imports();
    let mut twice = wildcard_fixture();
    twice.replace_wildcard_imports();
    twice.replace_wildcard_imports();
    assert_eq!(once, twice);
}

#[test]
fn wildcard_expands_public_structs() {
    let mut sub = named_module("sub");
    sub.objects.push(object("Foo", Visibility::Public));
    sub.objects.push(object("Bar", Visibility::Public));
    let mut parent = named_module("parent");
    parent.modules.push(sub);
    parent.imports.push(import(&["sub", "*"], Visibility::Public, None));

    parent.replace_wildcard_imports();

    let expected: Vec<Import> = vec![
        import(&["sub", "Foo"], Visibility::Public, None),
        import(&["sub", "Bar"], Visibility::Public, None),
    ];
    assert_eq!(parent.imports, expected);
}

#[test]
fn unresolved_wildcard_contributes_nothing() {
    let mut module = named_module("root");
    module.imports.push(import(&["missing", "*"], Visibility::Public, None));
    module.replace_wildcard_imports();
    assert!(module.imports.is_empty());
}

#[test]
fn ignored_marker() {
    let mut module = named_module("hidden");
    assert!(!module.ignored());
    let marker = Attribute::Group(
        Identifier::new("ligen"),
        Attributes {
            attributes: vec![
                Attribute::Group(Identifier::new("ignore"), Attributes::empty()),
            ],
        },
    );
    module.attributes.push(marker);
    assert!(module.ignored());
}

#[test]
fn find_module_descends() {
    let tree = wildcard_fixture();
    let deeper = tree.find_module(&path_of(&["objects", "deeper"])).unwrap();
    assert_eq!(deeper.name, Identifier::new("deeper"));
    assert!(tree.find_module(&path_of(&["objects", "absent"])).is_none());
    assert!(tree.find_module(&path_of(&[])).is_none());
}

#[test]
fn find_definition_resolves() {
    let tree = wildcard_fixture();
    let found = tree.find_definition(&path_of(&["root", "objects", "deeper", "Object5"]));
    assert_eq!(found.unwrap(), structure("Object5", Visibility::Public));
    let top = tree.find_definition(&path_of(&["wrong", "x"]));
    assert!(top.is_none());
}
