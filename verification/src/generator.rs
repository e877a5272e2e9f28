use vstd::prelude::*;
use vstd::string::*;
use crate::file::{File, FileSet};
use crate::path::Path;
use crate::section::{FileContent, spec_contents_text, spec_content_text, spec_section_text};
use crate::type_definition::{Field, Structure};
use crate::types::{spec_joined_names, spec_type_text, join_names};

verus! {

/// Walks the whole project; nothing is emitted at this level.
#[derive(Debug, Clone, Copy)]
pub struct ProjectProcessor;

/// Walks one module; nothing is emitted at this level.
#[derive(Debug, Clone, Copy)]
pub struct ModuleProcessor;

/// Walks one object; nothing is emitted at this level.
#[derive(Debug, Clone, Copy)]
pub struct ObjectProcessor;

/// Emits one structure as a target-language struct.
#[derive(Debug, Clone, Copy)]
pub struct StructureProcessor;

/// Walks one implementation block; nothing is emitted at this level.
#[derive(Debug, Clone, Copy)]
pub struct ImplementationProcessor;

/// Walks one function; the emitted name and output are not produced
/// yet.
#[derive(Debug, Clone, Copy)]
pub struct FunctionProcessor;

/// Walks one parameter; nothing is emitted at this level.
#[derive(Debug, Clone, Copy)]
pub struct ParameterProcessor;

/// The output path of an object's generated file: its path segments as
/// directories, with the target-language extension.
pub fn path(object_path: &Path) -> (r: String)
    ensures
        r@ == spec_joined_names(object_path@, "/"@) + ".cs"@,
{
    let mut out = join_names(&object_path.segments, "/");
    out.append(".cs");
    out
}

impl FunctionProcessor {
    /// The emitted name of a function; not produced yet.
    pub fn generate_function_name(&self) -> (r: String)
        ensures
            r@ == Seq::<char>::empty(),
    {
        String::new()
    }

    /// The emitted return spelling of a function; not produced yet.
    pub fn generate_function_output(&self, _output: &Option<crate::types::Type>) -> (r: String)
        ensures
            r@ == Seq::<char>::empty(),
    {
        String::new()
    }

    /// Functions are not emitted at this level.
    pub fn process(&self, file_set: &mut FileSet)
        ensures
            *final(file_set) == *old(file_set),
    {
    }

    /// Nothing to finish after a function.
    pub fn post_process(&self, file_set: &mut FileSet)
        ensures
            *final(file_set) == *old(file_set),
    {
    }
}

impl ProjectProcessor {
    /// Projects are not emitted at this level.
    pub fn process(&self, file_set: &mut FileSet)
        ensures
            *final(file_set) == *old(file_set),
    {
    }

    /// Nothing to finish after a project.
    pub fn post_process(&self, file_set: &mut FileSet)
        ensures
            *final(file_set) == *old(file_set),
    {
    }
}

impl ModuleProcessor {
    /// Modules are not emitted at this level.
    pub fn process(&self, file_set: &mut FileSet)
        ensures
            *final(file_set) == *old(file_set),
    {
    }

    /// Nothing to finish after a module.
    pub fn post_process(&self, file_set: &mut FileSet)
        ensures
            *final(file_set) == *old(file_set),
    {
    }
}

impl ObjectProcessor {
    /// Objects are not emitted at this level.
    pub fn process(&self, file_set: &mut FileSet)
        ensures
            *final(file_set) == *old(file_set),
    {
    }

    /// Nothing to finish after an object.
    pub fn post_process(&self, file_set: &mut FileSet)
        ensures
            *final(file_set) == *old(file_set),
    {
    }
}

impl ImplementationProcessor {
    /// Implementation blocks are not emitted at this level.
    pub fn process(&self, file_set: &mut FileSet)
        ensures
            *final(file_set) == *old(file_set),
    {
    }

    /// Nothing to finish after an implementation block.
    pub fn post_process(&self, file_set: &mut FileSet)
        ensures
            *final(file_set) == *old(file_set),
    {
    }
}

impl ParameterProcessor {
    /// Parameters are not emitted at this level.
    pub fn process(&self, file_set: &mut FileSet)
        ensures
            *final(file_set) == *old(file_set),
    {
    }

    /// Nothing to finish after a parameter.
    pub fn post_process(&self, file_set: &mut FileSet)
        ensures
            *final(file_set) == *old(file_set),
    {
    }
}

/// A field's emitted name; an unnamed field contributes an empty name.
pub open spec fn spec_field_name(f: Field) -> Seq<char> {
    match f.identifier {
        Some(i) => i@,
        None => Seq::empty(),
    }
}

/// The read-only member declarations, one line per field.
pub open spec fn spec_field_declarations(fs: Seq<Field>) -> Seq<char>
    decreases fs.len(),
{
    if fs.len() == 0 {
        Seq::empty()
    } else {
        "\t\tpublic readonly "@ + spec_type_text(fs[0].type_) + " "@ + spec_field_name(fs[0])
            + ";"@ + "\n"@ + spec_field_declarations(fs.drop_first())
    }
}

/// The constructor's argument list, comma separated.
pub open spec fn spec_constructor_arguments(fs: Seq<Field>) -> Seq<char>
    decreases fs.len(),
{
    if fs.len() == 0 {
        Seq::empty()
    } else if fs.len() == 1 {
        spec_type_text(fs[0].type_) + " "@ + spec_field_name(fs[0])
    } else {
        spec_type_text(fs[0].type_) + " "@ + spec_field_name(fs[0]) + ", "@
            + spec_constructor_arguments(fs.drop_first())
    }
}

/// The constructor body, one assignment per field.
pub open spec fn spec_field_assignments(fs: Seq<Field>) -> Seq<char>
    decreases fs.len(),
{
    if fs.len() == 0 {
        Seq::empty()
    } else {
        "\t\t\tthis."@ + spec_field_name(fs[0]) + " = "@ + spec_field_name(fs[0]) + ";"@
            + "\n"@ + spec_field_assignments(fs.drop_first())
    }
}

/// The whole emitted block for one structure: a namespace around an
/// interop-ready struct with its read-only fields and a constructor.
pub open spec fn spec_structure_text(namespace: Seq<char>, s: Structure) -> Seq<char> {
    "namespace "@ + namespace + "\n"@ + "{"@ + "\n"@
        + "\tusing System.Runtime.InteropServices;"@ + "\n"@
        + "\t[StructLayout(LayoutKind.Sequential, Pack = 1)]"@ + "\n"@ + "\tpublic struct "@
        + s.identifier@ + "\n"@ + "\t{"@ + "\n"@ + spec_field_declarations(s.fields@) + ""@
        + "\n"@ + "\t\tpublic "@ + s.identifier@ + "("@ + spec_constructor_arguments(s.fields@)
        + ")"@ + "\n"@ + "\t\t{"@ + "\n"@ + spec_field_assignments(s.fields@) + "\t\t}"@
        + "\n"@ + "\t}"@ + "\n"@ + "}"@ + "\n"@
}

/// Appending one fragment appends its text to the serialization.
proof fn lemma_contents_text_push(cs: Seq<FileContent>, c: FileContent)
    ensures
        spec_contents_text(cs.push(c)) == spec_contents_text(cs) + spec_content_text(c),
    decreases cs.len(),
{
    if cs.len() == 0 {
        assert(cs.push(c)[0] == c);
        assert(cs.push(c).drop_first() =~= Seq::<FileContent>::empty());
        assert(spec_contents_text(cs.push(c).drop_first()) == Seq::<char>::empty());
        assert(spec_content_text(c) + Seq::<char>::empty() =~= spec_content_text(c));
        assert(Seq::<char>::empty() + spec_content_text(c) =~= spec_content_text(c));
    } else {
        assert(cs.push(c)[0] == cs[0]);
        assert(cs.push(c).drop_first() =~= cs.drop_first().push(c));
        lemma_contents_text_push(cs.drop_first(), c);
        assert(spec_content_text(cs[0]) + (spec_contents_text(cs.drop_first())
            + spec_content_text(c)) =~= (spec_content_text(cs[0]) + spec_contents_text(
            cs.drop_first(),
        )) + spec_content_text(c));
    }
}

/// Writes one line into the file's root section.
fn write_line(file: &mut File, text: &str)
    ensures
        final(file).path == old(file).path,
        spec_section_text(final(file).root) == spec_section_text(old(file).root) + text@ + "\n"@,
{
    let ghost cs = file.root.content@;
    file.root.writeln(text);
    proof {
        assert(file.root.content@ =~= cs.push(file.root.content@.last()));
        lemma_contents_text_push(cs, file.root.content@.last());
        assert(text@.push('\n') =~= text@ + "\n"@) by {
            reveal_strlit("\n");
        }
        assert(spec_section_text(file.root) =~= spec_section_text(old(file).root) + text@
            + "\n"@);
    }
}

/// Emits the read-only member declarations, one line per field.
fn emit_field_declarations(file: &mut File, fields: &Vec<Field>)
    ensures
        final(file).path == old(file).path,
        spec_section_text(final(file).root) == spec_section_text(old(file).root)
            + spec_field_declarations(fields@),
{
    let n = fields.len();
    let ghost head = spec_section_text(file.root);
    let mut i: usize = 0;
    proof {
        assert(fields@.skip(0) =~= fields@);
    }
    while i < n
        invariant
            0 <= i <= n,
            n == fields@.len(),
            file.path == old(file).path,
            head == spec_section_text(old(file).root),
            head + spec_field_declarations(fields@) == spec_section_text(file.root)
                + spec_field_declarations(fields@.skip(i as int)),
        decreases n - i,
    {
        proof {
            assert(fields@.skip(i as int)[0] == fields@[i as int]);
            assert(fields@.skip(i as int).drop_first() =~= fields@.skip(i + 1));
        }
        let ghost before = spec_section_text(file.root);
        let field = &fields[i];
        let mut line = String::from_str("\t\tpublic readonly ");
        let rendered = field.type_.to_text();
        line.append(rendered.as_str());
        line.append(" ");
        match &field.identifier {
            Some(identifier) => {
                line.append(identifier.name.as_str());
            },
            None => {},
        }
        line.append(";");
        write_line(file, line.as_str());
        proof {
            let piece = "\t\tpublic readonly "@ + spec_type_text(fields@[i as int].type_) + " "@
                + spec_field_name(fields@[i as int]) + ";"@ + "\n"@;
            assert(line@ + "\n"@ =~= piece);
            assert(spec_field_declarations(fields@.skip(i as int)) == piece
                + spec_field_declarations(fields@.skip(i + 1)));
            assert((before + piece) + spec_field_declarations(fields@.skip(i + 1)) =~= before + (
            piece + spec_field_declarations(fields@.skip(i + 1))));
        }
        i += 1;
    }
    proof {
        assert(spec_field_declarations(fields@.skip(n as int)) =~= Seq::<char>::empty());
        assert(spec_section_text(file.root) + spec_field_declarations(fields@.skip(n as int))
            =~= spec_section_text(file.root));
    }
}

/// The constructor's comma-separated argument list.
fn build_constructor_arguments(fields: &Vec<Field>) -> (r: String)
    ensures
        r@ == spec_constructor_arguments(fields@),
{
    let n = fields.len();
    let mut arguments = String::new();
    let mut i: usize = 0;
    proof {
        assert(fields@.skip(0) =~= fields@);
    }
    while i < n
        invariant
            0 <= i <= n,
            n == fields@.len(),
            spec_constructor_arguments(fields@) == arguments@ + spec_constructor_arguments(
                fields@.skip(i as int),
            ),
        decreases n - i,
    {
        proof {
            assert(fields@.skip(i as int)[0] == fields@[i as int]);
            assert(fields@.skip(i as int).drop_first() =~= fields@.skip(i + 1));
        }
        let ghost arguments0 = arguments@;
        let field = &fields[i];
        let rendered = field.type_.to_text();
        arguments.append(rendered.as_str());
        arguments.append(" ");
        match &field.identifier {
            Some(identifier) => {
                arguments.append(identifier.name.as_str());
            },
            None => {},
        }
        if i + 1 < n {
            arguments.append(", ");
            proof {
                let piece = spec_type_text(fields@[i as int].type_) + " "@ + spec_field_name(
                    fields@[i as int],
                ) + ", "@;
                assert(arguments@ =~= arguments0 + piece);
                assert(spec_constructor_arguments(fields@.skip(i as int)) == piece
                    + spec_constructor_arguments(fields@.skip(i + 1)));
                assert((arguments0 + piece) + spec_constructor_arguments(fields@.skip(i + 1))
                    =~= arguments0 + (piece + spec_constructor_arguments(fields@.skip(i + 1))));
            }
        } else {
            proof {
                let piece = spec_type_text(fields@[i as int].type_) + " "@ + spec_field_name(
                    fields@[i as int],
                );
                assert(arguments@ =~= arguments0 + piece);
                assert(spec_constructor_arguments(fields@.skip(i as int)) == piece);
                assert(spec_constructor_arguments(fields@.skip(i + 1)) =~= Seq::<char>::empty());
                assert((arguments0 + piece) + spec_constructor_arguments(fields@.skip(i + 1))
                    =~= arguments0 + piece);
            }
        }
        i += 1;
    }
    proof {
        assert(spec_constructor_arguments(fields@.skip(n as int)) =~= Seq::<char>::empty());
        assert(arguments@ + spec_constructor_arguments(fields@.skip(n as int)) =~= arguments@);
    }
    arguments
}

/// Emits the constructor body, one assignment per field.
fn emit_field_assignments(file: &mut File, fields: &Vec<Field>)
    ensures
        final(file).path == old(file).path,
        spec_section_text(final(file).root) == spec_section_text(old(file).root)
            + spec_field_assignments(fields@),
{
    let n = fields.len();
    let ghost head = spec_section_text(file.root);
    let mut i: usize = 0;
    proof {
        assert(fields@.skip(0) =~= fields@);
    }
    while i < n
        invariant
            0 <= i <= n,
            n == fields@.len(),
            file.path == old(file).path,
            head == spec_section_text(old(file).root),
            head + spec_field_assignments(fields@) == spec_section_text(file.root)
                + spec_field_assignments(fields@.skip(i as int)),
        decreases n - i,
    {
        proof {
            assert(fields@.skip(i as int)[0] == fields@[i as int]);
            assert(fields@.skip(i as int).drop_first() =~= fields@.skip(i + 1));
        }
        let ghost before = spec_section_text(file.root);
        let field = &fields[i];
        let mut line = String::from_str("\t\t\tthis.");
        match &field.identifier {
            Some(identifier) => {
                line.append(identifier.name.as_str());
            },
            None => {},
        }
        line.append(" = ");
        match &field.identifier {
            Some(identifier) => {
                line.append(identifier.name.as_str());
            },
            None => {},
        }
        line.append(";");
        write_line(file, line.as_str());
        proof {
            let piece = "\t\t\tthis."@ + spec_field_name(fields@[i as int]) + " = "@
                + spec_field_name(fields@[i as int]) + ";"@ + "\n"@;
            assert(line@ + "\n"@ =~= piece);
            assert(spec_field_assignments(fields@.skip(i as int)) == piece
                + spec_field_assignments(fields@.skip(i + 1)));
            assert((before + piece) + spec_field_assignments(fields@.skip(i + 1)) =~= before + (
            piece + spec_field_assignments(fields@.skip(i + 1))));
        }
        i += 1;
    }
    proof {
        assert(spec_field_assignments(fields@.skip(n as int)) =~= Seq::<char>::empty());
        assert(spec_section_text(file.root) + spec_field_assignments(fields@.skip(n as int))
            =~= spec_section_text(file.root));
    }
}

impl StructureProcessor {
    /// Emits the structure into the file as a namespace around an
    /// interop-ready struct: its read-only members, then a constructor
    /// assigning each one.
    #[verifier::rlimit(80)]
    pub fn process(&self, file: &mut File, namespace: &str, structure: &Structure)
        ensures
            final(file).path == old(file).path,
            spec_section_text(final(file).root) == spec_section_text(old(file).root)
                + spec_structure_text(namespace@, *structure),
    {
        let ghost start = spec_section_text(old(file).root);
        let mut line = String::from_str("namespace ");
        line.append(namespace);
        write_line(file, line.as_str());
        write_line(file, "{");
        write_line(file, "\tusing System.Runtime.InteropServices;");
        write_line(file, "\t[StructLayout(LayoutKind.Sequential, Pack = 1)]");
        let mut line = String::from_str("\tpublic struct ");
        line.append(structure.identifier.name.as_str());
        write_line(file, line.as_str());
        write_line(file, "\t{");
        emit_field_declarations(file, &structure.fields);
        write_line(file, "");
        let arguments = build_constructor_arguments(&structure.fields);
        let mut line = String::from_str("\t\tpublic ");
        line.append(structure.identifier.name.as_str());
        line.append("(");
        line.append(arguments.as_str());
        line.append(")");
        write_line(file, line.as_str());
        write_line(file, "\t\t{");
        emit_field_assignments(file, &structure.fields);
        write_line(file, "\t\t}");
        write_line(file, "\t}");
        write_line(file, "}");
        proof {
            assert(spec_section_text(file.root) =~= start + spec_structure_text(
                namespace@,
                *structure,
            ));
        }
    }
}

} // verus!
