use ligen::identifier::Identifier;
use ligen::library::Library;
use ligen::module::Module;
use ligen::path::Path;
use ligen::tree::{HasBranches, HasIdentifier, IsTree};
use ligen::visitor::Visitor;

#[derive(Debug, PartialEq, Eq)]
struct Value {
    identifier: String,
}

impl HasIdentifier for Value {
    // ghost half of the trait; never called at run time
    fn spec_identifier(&self) -> vstd::seq::Seq<char> {
        panic!()
    }

    fn identifier(&self) -> &String {
        &self.identifier
    }
}

impl HasBranches for Value {
    // ghost half of the trait; never called at run time
    fn spec_branches(&self) -> vstd::seq::Seq<Value> {
        panic!()
    }
}

impl IsTree for Value {
    fn is(&self, identifier: &str) -> bool {
        identifier == self.identifier
    }

    fn get(&self, _key: &str) -> Option<&Self> {
        None
    }

    fn path_get(&self, path: &[&str]) -> Option<&Self> {
        if path.is_empty() {
            Some(self)
        } else {
            None
        }
    }

    fn branches(&self) -> Vec<&Self> {
        Vec::new()
    }
}

impl Value {
    fn new(identifier: impl Into<String>) -> Self {
        Self { identifier: identifier.into() }
    }
}

#[test]
fn visitor() {
    let root = Value::new("root");
    let root = Visitor::new(&root, None, Path::empty());
    let branch = Value::new("branch");
    let branch = root.child(&branch);
    let leaf = Value::new("leaf");
    let leaf = branch.child(&leaf);
    assert_eq!(root.root().value().identifier(), "root");
    assert_eq!(branch.root().value().identifier(), "root");
    assert_eq!(branch.parent().unwrap().value().identifier(), "root");
    assert_eq!(leaf.root().value().identifier(), "root");
    assert_eq!(leaf.parent().unwrap().value().identifier(), "branch");
    assert_eq!(leaf.parent().unwrap().parent().unwrap().value().identifier(), "root");
}

#[test]
fn new_visitor() {
    let mut root_module = Module::new(Identifier::new("root"));
    root_module.modules.push(Module::new(Identifier::new("sub")));
    let library = Library::new(Identifier::new("library"), root_module);

    assert_eq!(library.identifier(), "library");
    let root_module = Visitor::new(&library.root_module, None, Path::empty());
    assert_eq!(root_module.value().identifier(), "root");
    let sub_module = root_module.child(&root_module.value().modules[0]);
    assert_eq!(sub_module.value().identifier(), "sub");
    assert_eq!(sub_module.parent().unwrap().value().identifier(), "root");
}

fn segments(names: &[&str]) -> Vec<Identifier> {
    names.iter().map(|n| Identifier::new(n)).collect()
}

fn sample_tree() -> Module {
    let mut root = Module::new(Identifier::new("root"));
    let mut mid = Module::new(Identifier::new("mid"));
    mid.modules.push(Module::new(Identifier::new("inner")));
    root.modules.push(mid);
    root
}

#[test]
fn relative_descends_and_climbs() {
    let tree = sample_tree();
    let root = Visitor::new(&tree, None, Path::empty());
    let mid = root.relative(&segments(&["mid"])).unwrap();
    assert_eq!(mid.value().identifier(), "mid");
    let inner = root.relative(&segments(&["mid", "inner"])).unwrap();
    assert_eq!(inner.value().identifier(), "inner");
    let back = inner.relative(&segments(&["super", "super"])).unwrap();
    assert_eq!(back.value().identifier(), "root");
    let jumped = inner.relative(&segments(&["root"])).unwrap();
    assert_eq!(jumped.value().identifier(), "root");
    assert!(root.relative(&segments(&["absent"])).is_none());
}

#[test]
fn relative_super_without_parent_is_unresolvable() {
    let tree = sample_tree();
    let root = Visitor::new(&tree, None, Path::empty());
    assert!(root.relative(&segments(&["super"])).is_none());
}

#[test]
fn relative_self_is_skipped() {
    let tree = sample_tree();
    let root = Visitor::new(&tree, None, Path::empty());
    let with_self = root.relative(&segments(&["self", "mid"])).unwrap();
    let without = root.relative(&segments(&["mid"])).unwrap();
    assert_eq!(with_self.value().identifier(), without.value().identifier());
    assert_eq!(with_self.path().segments.len(), without.path().segments.len());
}

#[test]
fn root_of_deep_child_chain_is_the_original_root() {
    let a = Value::new("a");
    let b = Value::new("b");
    let c = Value::new("c");
    let d = Value::new("d");
    let visitor = Visitor::new(&a, None, Path::empty());
    let deep = visitor.child(&b).child(&c).child(&d);
    assert_eq!(deep.root().value().identifier(), "a");
    assert_eq!(deep.root().value().identifier(), visitor.root().value().identifier());
}

#[test]
fn child_path_joins_identifiers() {
    let tree = sample_tree();
    let root = Visitor::new(&tree, None, Path::empty());
    let inner = root.relative(&segments(&["mid", "inner"])).unwrap();
    let path = inner.path();
    assert_eq!(path.segments.len(), 2);
    assert_eq!(path.segments[0].name, "mid");
    assert_eq!(path.segments[1].name, "inner");
}
