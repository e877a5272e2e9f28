use ligen::attribute::Attributes;
use ligen::file::File;
use ligen::function::Function;
use ligen::generator::{FunctionProcessor, StructureProcessor, path};
use ligen::identifier::Identifier;
use ligen::object::Implementation;
use ligen::path::Path;
use ligen::type_definition::{Field, Structure};
use ligen::types::{Mutability, Reference, ReferenceKind, Type};
use ligen::visibility::Visibility;

fn path_of(names: &[&str]) -> Path {
    let mut path = Path::empty();
    for name in names {
        path.push_back(Identifier::new(name));
    }
    path
}

fn field(name: &str, type_: Type) -> Field {
    Field {
        attributes: Attributes::empty(),
        visibility: Visibility::Public,
        identifier: Some(Identifier::new(name)),
        type_,
    }
}

#[test]
fn object_file_path() {
    assert_eq!(path(&path_of(&["geometry", "Point"])), "geometry/Point.cs");
    assert_eq!(path(&path_of(&["Point"])), "Point.cs");
}

#[test]
fn structure_emission() {
    let structure = Structure {
        attributes: Attributes::empty(),
        visibility: Visibility::Public,
        identifier: Identifier::new("Point"),
        fields: vec![field("x", Type::i32()), field("y", Type::i32())],
    };
    let mut file = File::new("Point.cs");
    StructureProcessor.process(&mut file, "Demo", &structure);
    let expected = "namespace Demo\n\
                    {\n\
                    \tusing System.Runtime.InteropServices;\n\
                    \t[StructLayout(LayoutKind.Sequential, Pack = 1)]\n\
                    \tpublic struct Point\n\
                    \t{\n\
                    \t\tpublic readonly i32 x;\n\
                    \t\tpublic readonly i32 y;\n\
                    \n\
                    \t\tpublic Point(i32 x, i32 y)\n\
                    \t\t{\n\
                    \t\t\tthis.x = x;\n\
                    \t\t\tthis.y = y;\n\
                    \t\t}\n\
                    \t}\n\
                    }\n";
    assert_eq!(file.content(), expected);
}

#[test]
fn empty_structure_emission() {
    let structure = Structure {
        attributes: Attributes::empty(),
        visibility: Visibility::Public,
        identifier: Identifier::new("Unit"),
        fields: vec![],
    };
    let mut file = File::new("Unit.cs");
    StructureProcessor.process(&mut file, "Demo", &structure);
    let expected = "namespace Demo\n\
                    {\n\
                    \tusing System.Runtime.InteropServices;\n\
                    \t[StructLayout(LayoutKind.Sequential, Pack = 1)]\n\
                    \tpublic struct Unit\n\
                    \t{\n\
                    \n\
                    \t\tpublic Unit()\n\
                    \t\t{\n\
                    \t\t}\n\
                    \t}\n\
                    }\n";
    assert_eq!(file.content(), expected);
}

#[test]
fn function_processor_outputs_are_empty() {
    assert_eq!(FunctionProcessor.generate_function_name(), "");
    assert_eq!(FunctionProcessor.generate_function_output(&Some(Type::i32())), "");
}

#[test]
fn type_rendering() {
    assert_eq!(Type::i32().to_text(), "i32");
    assert_eq!(path_type(&["std", "string", "String"]).to_text(), "std::string::String");
    let reference = Type::Reference(Reference {
        kind: ReferenceKind::Borrow,
        mutability: Mutability::Mutable,
        type_: Box::new(Type::string()),
    });
    assert_eq!(reference.to_text(), "&mut String");
}

fn path_type(names: &[&str]) -> Type {
    Type::Path(path_of(names))
}

#[test]
fn replace_self_names_the_owner() {
    let receiver = ligen::parameter::Parameter {
        attributes: Attributes::empty(),
        identifier: Identifier::new("self"),
        type_: Type::Reference(Reference {
            kind: ReferenceKind::Borrow,
            mutability: Mutability::Constant,
            type_: Box::new(Type::named("Self")),
        }),
    };
    let f = Function::new(
        Attributes::empty(),
        Visibility::Public,
        None,
        Identifier::new("clone_me"),
        vec![receiver],
        Some(Type::named("Self")),
    );
    let mut implementation = Implementation {
        attributes: Attributes::empty(),
        self_: Type::named("Widget"),
        items: vec![f],
    };
    implementation.replace_self_with_name("Widget");
    let rewritten = &implementation.items[0];
    assert_eq!(rewritten.output.as_ref().unwrap(), &Type::named("Widget"));
    assert_eq!(rewritten.inputs[0].type_.drop_reference(), Type::named("Widget"));
}
