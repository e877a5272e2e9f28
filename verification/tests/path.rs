use ligen::identifier::{Identifier, IdentifierKind};
use ligen::path::Path;

fn path_of(names: &[&str]) -> Path {
    let mut path = Path::empty();
    for name in names {
        path.push_back(Identifier::new(name));
    }
    path
}

#[test]
fn join_is_associative() {
    let p = path_of(&["a", "b"]);
    let q = path_of(&["c"]);
    let r = path_of(&["d", "e"]);
    let left = p.clone().join(q.clone()).join(r.clone());
    let right = p.join(q.join(r));
    assert_eq!(left, right);
    assert_eq!(left, path_of(&["a", "b", "c", "d", "e"]));
}

#[test]
fn path_ends() {
    let mut path = path_of(&["a", "b", "c"]);
    assert_eq!(path.first().unwrap().name, "a");
    assert_eq!(path.last().unwrap().name, "c");
    let front = path.pop_front().unwrap();
    assert_eq!(front.name, "a");
    let back = path.pop_back().unwrap();
    assert_eq!(back.name, "c");
    assert_eq!(path, path_of(&["b"]));
    path.push_front(Identifier::new("x"));
    assert_eq!(path, path_of(&["x", "b"]));
    assert_eq!(path_of(&["a", "b"]).without_first(), path_of(&["b"]));
    assert_eq!(path_of(&["a", "b"]).without_last(), path_of(&["a"]));
}

#[test]
fn path_order_is_lexicographic() {
    assert!(path_of(&["a"]).le(&path_of(&["b"])));
    assert!(!path_of(&["b"]).le(&path_of(&["a"])));
    assert!(path_of(&["a"]).le(&path_of(&["a", "b"])));
    assert!(path_of(&["a", "b"]).le(&path_of(&["ab"])));
    assert!(path_of(&["Object"]).le(&path_of(&["Object"])));
    assert!(path_of(&["AnotherObject"]).le(&path_of(&["Object"])));
}

#[test]
fn identifier_kinds() {
    assert_eq!(Identifier::new("root").kind(), IdentifierKind::Root);
    assert_eq!(Identifier::new("self").kind(), IdentifierKind::SelfRef);
    assert_eq!(Identifier::new("super").kind(), IdentifierKind::SuperRef);
    assert_eq!(Identifier::new("widget").kind(), IdentifierKind::Other);
}
