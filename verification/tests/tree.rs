use ligen::tree::{HasIdentifier, IsTree, Tree};

pub struct Module {
    identifier: String,
}

impl Module {
    pub fn format(&self) -> String {
        format!("[{}]", self.identifier)
    }
}

impl<S: Into<String>> From<S> for Module {
    fn from(name: S) -> Self {
        let name = name.into();
        Self { identifier: name }
    }
}

impl HasIdentifier for Module {
    // ghost half of the trait; never called at run time
    fn spec_identifier(&self) -> vstd::seq::Seq<char> {
        panic!()
    }

    fn identifier(&self) -> &String {
        &self.identifier
    }
}

fn create() -> Tree<Module> {
    let mut root = Tree::from(Module::from("root"));
    assert!(root.is("root"));
    assert_eq!(root.value.format(), "[root]");

    let mut branch = Tree::from(Module::from("branch"));
    assert!(branch.is("branch"));
    assert_eq!(branch.value.format(), "[branch]");

    let leaf = Tree::from(Module::from("leaf"));
    assert!(leaf.is("leaf"));
    assert_eq!(leaf.value.format(), "[leaf]");

    branch.add_branch(leaf);
    root.add_branch(branch);
    root
}

#[test]
fn creation() {
    create();
}

#[test]
fn get() {
    let root = create();
    assert!(root.is("root"));
    assert_eq!(root.value.format(), "[root]");

    let branch = root.get("branch").unwrap();
    assert!(branch.is("branch"));
    assert_eq!(branch.value.format(), "[branch]");

    let leaf = branch.get("leaf").unwrap();
    assert!(leaf.is("leaf"));
    assert_eq!(leaf.value.format(), "[leaf]");
}

#[test]
fn get_from_path() {
    let root = create();
    let empty: [&str; 0] = [];
    let jose = root.path_get(&empty).unwrap();
    assert!(jose.is("root"));
    assert_eq!(jose.value.format(), "[root]");

    assert!(jose.path_get(&["none"]).is_none());
    assert!(jose.path_get(&["branch", "fruit"]).is_none());

    let danilo = jose.path_get(&["branch"]).unwrap();
    assert!(danilo.is("branch"));
    assert_eq!(danilo.value.format(), "[branch]");

    let joaquim = jose.path_get(&["branch", "leaf"]).unwrap();
    assert!(joaquim.is("leaf"));
    assert_eq!(joaquim.value.format(), "[leaf]");
}

#[test]
fn add_branch_keeps_existing_names() {
    let mut root = create();
    root.add_branch(Tree::from(Module::from("branch")));
    let branch = root.get("branch").unwrap();
    assert!(branch.get("leaf").is_some());
    assert_eq!(root.children.len(), 1);
}
