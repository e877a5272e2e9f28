use ligen::file::{File, FileSet};
use ligen::section::{FileContent, FileSection};
use ligen::template::SectionTemplate;
use ligen::tree::IsTree;

#[test]
fn template_with_nested_placeholder() {
    let mut template = SectionTemplate::new("outer", "A[section(mid)]B");
    template.register(SectionTemplate::new("mid", "1[section(inner)]2"));

    let section = FileSection::from_template(&template).unwrap();
    assert_eq!(section.name, "outer");
    assert_eq!(section.to_text(), "A12B");

    assert_eq!(section.content.len(), 3);
    assert!(matches!(&section.content[0], FileContent::Text(t) if t == "A"));
    assert!(matches!(&section.content[2], FileContent::Text(t) if t == "B"));

    let mid = section.get("mid").unwrap();
    assert_eq!(mid.to_text(), "12");
    let inner = mid.get("inner").unwrap();
    assert_eq!(inner.name, "inner");
    assert!(inner.content.is_empty());
}

#[test]
fn template_missing_section_end_is_an_error() {
    let template = SectionTemplate::new("broken", "text [section(name without end");
    assert!(FileSection::from_template(&template).is_err());
}

#[test]
fn template_without_placeholders_is_literal() {
    let template = SectionTemplate::new("plain", "just text");
    let section = FileSection::from_template(&template).unwrap();
    assert_eq!(section.to_text(), "just text");
    assert_eq!(section.content.len(), 1);
}

#[test]
fn filled_placeholder_serializes_in_place() {
    let mut template = SectionTemplate::new("file", "fn main() {[section(body)]}");
    template.register(SectionTemplate::new("unused", "nothing"));
    let mut section = FileSection::from_template(&template).unwrap();
    assert_eq!(section.to_text(), "fn main() {}");
    for fragment in section.content.iter_mut() {
        if let FileContent::Section(body) = fragment {
            body.writeln("do_something();");
        }
    }
    assert_eq!(section.to_text(), "fn main() {do_something();\n}");
}

#[test]
fn opening_marker_inside_a_placeholder_is_consumed() {
    // an opening marker standing inside a previous, still-open
    // placeholder's name belongs to that placeholder's span and starts
    // no section of its own
    let template = SectionTemplate::new("outer", "A[section([section(x)]B");
    let section = FileSection::from_template(&template).unwrap();
    assert_eq!(section.content.len(), 3);
    assert!(matches!(&section.content[0], FileContent::Text(t) if t == "A"));
    assert!(matches!(&section.content[1], FileContent::Section(s) if s.name == "[section(x"));
    assert!(matches!(&section.content[2], FileContent::Text(t) if t == "B"));
    assert_eq!(section.to_text(), "AB");
}

#[test]
fn section_writes() {
    let mut section = FileSection::new("demo");
    section.write("head");
    section.writeln(" mid");
    section.write("tail");
    assert_eq!(section.to_text(), "head mid\ntail");
}

#[test]
fn indexed_writes_go_before_later_content() {
    let mut section = FileSection::new("demo");
    section.write("b");
    section.indexed_write(0, "a");
    section.indexed_writeln(2, "c");
    assert_eq!(section.to_text(), "abc\n");
}

#[test]
fn sections_nest_and_resolve_by_name() {
    let mut root = FileSection::new("root");
    root.write("before ");
    root.add_branch(FileSection::new("child"));
    root.write(" after");
    assert!(root.get("child").is_some());
    assert!(root.get("absent").is_none());
    assert!(root.path_get(&["child"]).is_some());
    assert_eq!(root.to_text(), "before  after");
}

#[test]
fn file_set_entry_reuses_paths() {
    let mut set = FileSet::new();
    let first = set.entry("src/lib.rs");
    let again = set.entry("src/lib.rs");
    let other = set.entry("src/mod.rs");
    assert_eq!(first, again);
    assert_ne!(first, other);
    assert_eq!(set.files.len(), 2);
    set.files[first].root.write("content");
    assert_eq!(set.get("src/lib.rs").unwrap().content(), "content");
    assert!(set.get("src/other.rs").is_none());
}

#[test]
fn file_content_serializes_root_section() {
    let mut file = File::new("out.txt");
    file.root.writeln("line");
    assert_eq!(file.content(), "line\n");
}
