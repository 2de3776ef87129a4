use code_graph::relationship::{Metadata, Relationship, RelationshipKind, RelationshipTarget};

fn edge(to: RelationshipTarget) -> Relationship {
    Relationship { from: 1, to, kind: RelationshipKind::Inherits, metadata: Metadata::new() }
}

#[test]
fn resolving_an_unresolved_edge() {
    let mut r = edge(RelationshipTarget::Unresolved(String::from("Base")));
    assert_eq!(r.is_unresolved(), Some("Base"));
    r.resolve(42);
    assert!(matches!(r.to, RelationshipTarget::Resolved(42)));
    assert_eq!(r.is_unresolved(), None);
    assert_eq!(r.from, 1);
    assert_eq!(r.kind, RelationshipKind::Inherits);
}

#[test]
fn first_resolution_sticks() {
    let mut r = edge(RelationshipTarget::Unresolved(String::from("Base")));
    r.resolve(7);
    r.resolve(9);
    assert!(matches!(r.to, RelationshipTarget::Resolved(7)));
    let mut done = edge(RelationshipTarget::Resolved(3));
    done.resolve(5);
    assert!(matches!(done.to, RelationshipTarget::Resolved(3)));
    assert_eq!(done.is_unresolved(), None);
}

#[test]
fn default_kind_is_contains() {
    assert_eq!(RelationshipKind::default(), RelationshipKind::Contains);
}

#[test]
fn metadata_insert_adds_and_replaces() {
    let mut m = Metadata::new();
    assert!(m.entries.is_empty());
    m.insert(String::from("throws"), String::from("IOException"));
    m.insert(String::from("note"), String::from("x"));
    m.insert(String::from("throws"), String::from("IOException,Error"));
    assert_eq!(
        m.entries,
        vec![
            (String::from("throws"), String::from("IOException,Error")),
            (String::from("note"), String::from("x")),
        ]
    );
}

#[test]
fn target_clone_is_equal() {
    let t = RelationshipTarget::Unresolved(String::from("Runnable"));
    match t.clone() {
        RelationshipTarget::Unresolved(n) => assert_eq!(n, "Runnable"),
        RelationshipTarget::Resolved(_) => panic!("changed variant"),
    }
}
