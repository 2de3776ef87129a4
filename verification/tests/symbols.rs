use std::collections::hash_map::DefaultHasher;
use std::collections::HashSet;
use std::hash::{Hash, Hasher};

use code_graph::symbol::{
    clone_modifiers, Constructor, FunctionDefinition, Language, Location, MemberVariable,
    Modifier, Point, SymbolKind, Type, Visibility,
};

fn ty(name: &str) -> Type {
    Type { reference: false, pointer_depth: 0, name: String::from(name) }
}

#[test]
fn visibility_from_keyword() {
    assert_eq!(Visibility::from("public"), Visibility::Public);
    assert_eq!(Visibility::from("private"), Visibility::Private);
    assert_eq!(Visibility::from("protected"), Visibility::Protected);
    assert_eq!(Visibility::from("package"), Visibility::Protected);
    assert_eq!(Visibility::from("static"), Visibility::Unknown);
    assert_eq!(Visibility::from(""), Visibility::Unknown);
}

#[test]
fn visibility_ignores_case() {
    assert_eq!(Visibility::from("PUBLIC"), Visibility::Public);
    assert_eq!(Visibility::from("Private"), Visibility::Private);
    assert_eq!(Visibility::from("pRoTeCtEd"), Visibility::Protected);
    assert_eq!(Visibility::from("PUBLIC"), Visibility::from("public"));
}

#[test]
fn modifier_from_keyword() {
    assert!(matches!(Modifier::from("const"), Modifier::Constant));
    assert!(matches!(Modifier::from("static"), Modifier::Static));
    assert!(matches!(Modifier::from("abstract"), Modifier::Abstract));
    assert!(matches!(Modifier::from("virtual"), Modifier::Virtual));
    assert!(matches!(Modifier::from("ovveride"), Modifier::Override));
    assert!(matches!(Modifier::from("volatile"), Modifier::Volatile));
    assert!(matches!(Modifier::from("final"), Modifier::Final));
    match Modifier::from("override") {
        Modifier::Special(s) => assert_eq!(s, "override"),
        other => panic!("unexpected {:?}", other),
    }
    match Modifier::from("Static") {
        Modifier::Special(s) => assert_eq!(s, "Static"),
        other => panic!("unexpected {:?}", other),
    }
}

#[test]
fn defaults() {
    assert_eq!(Language::default(), Language::Java);
    assert_eq!(Visibility::default(), Visibility::Unknown);
}

#[test]
fn location_is_one_based() {
    let loc = Location::from(Point { row: 0, column: 0 }, Point { row: 4, column: 17 });
    assert_eq!(
        loc,
        Location { start_line: 1, start_column: 1, end_line: 5, end_column: 18 }
    );
}

#[test]
fn kinds_compare_by_variant() {
    let f1 = SymbolKind::FunctionDefinition(FunctionDefinition {
        value: String::new(),
        params: Vec::new(),
        return_type: ty("int"),
    });
    let f2 = SymbolKind::FunctionDefinition(FunctionDefinition {
        value: String::from("default"),
        params: Vec::new(),
        return_type: ty("void"),
    });
    assert!(f1 == f2);
    assert!(SymbolKind::Class == SymbolKind::Class);
    assert!(SymbolKind::Class != SymbolKind::Struct);
    assert!(SymbolKind::Destructor(String::from("a")) == SymbolKind::Destructor(String::from("b")));
    let m = SymbolKind::MemberVariable(MemberVariable { value: String::new(), dtype: ty("int") });
    assert!(m != f1);
    let c = SymbolKind::Constructor(Constructor { value: String::new(), params: Vec::new() });
    assert!(c != m);
}

#[test]
fn kind_tags_are_distinct() {
    let kinds = vec![
        SymbolKind::Destructor(String::new()),
        SymbolKind::Constructor(Constructor { value: String::new(), params: Vec::new() }),
        SymbolKind::Class,
        SymbolKind::Struct,
        SymbolKind::Interface,
        SymbolKind::Trait,
        SymbolKind::Enum,
        SymbolKind::FunctionDefinition(FunctionDefinition {
            value: String::new(),
            params: Vec::new(),
            return_type: ty("int"),
        }),
        SymbolKind::MemberVariable(MemberVariable { value: String::new(), dtype: ty("int") }),
        SymbolKind::FunctionCall,
        SymbolKind::Module,
        SymbolKind::Import,
        SymbolKind::Root,
        SymbolKind::Unknown,
    ];
    for (i, k) in kinds.iter().enumerate() {
        assert_eq!(k.tag() as usize, i);
    }
}

#[test]
fn clones_keep_their_data() {
    let mods = vec![Modifier::Static, Modifier::Special(String::from("inline"))];
    let copy = clone_modifiers(&mods);
    assert_eq!(format!("{:?}", copy), format!("{:?}", mods));
    let kind = SymbolKind::MemberVariable(MemberVariable { value: String::from("3"), dtype: ty("int") });
    assert_eq!(format!("{:?}", kind.clone()), format!("{:?}", kind));
}

fn digest(k: &SymbolKind) -> u64 {
    let mut h = DefaultHasher::new();
    k.hash(&mut h);
    h.finish()
}

#[test]
fn kinds_hash_by_variant() {
    let a = SymbolKind::Destructor(String::from("x"));
    let b = SymbolKind::Destructor(String::from("y"));
    assert_eq!(digest(&a), digest(&b));
    let mut set = HashSet::new();
    set.insert(a);
    set.insert(b);
    set.insert(SymbolKind::Class);
    set.insert(SymbolKind::Class);
    assert_eq!(set.len(), 2);
}
