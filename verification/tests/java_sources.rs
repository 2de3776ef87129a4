use code_graph::graph::{Graph, SourceFile};
use code_graph::relationship::{RelationshipKind, RelationshipTarget};
use code_graph::symbol::{Language, Modifier, Symbol, SymbolKind, Visibility};

const GREETER: &str = "public class Greeter extends Base implements Runnable, Comparable {
    private static final int count = 3;
    public String greet(String name, final int times) throws IOException, RuntimeException {
        return helper(name);
    }
    void helper(String s) {
    }
}
";

fn java_graph(content: &str) -> Graph {
    let file = SourceFile {
        path: String::from("src/Greeter.java"),
        extension: Some(String::from("java")),
        content: String::from(content),
    };
    Graph::create(vec![file]).expect("creating a graph never fails")
}

fn named<'a>(g: &'a Graph, name: &str) -> Vec<&'a Symbol> {
    g.symbols().values().filter(|s| s.name == name).collect()
}

fn only<'a>(g: &'a Graph, name: &str) -> &'a Symbol {
    let found = named(g, name);
    assert_eq!(found.len(), 1, "symbols named {:?}: {:?}", name, found);
    found[0]
}

#[test]
fn java_class_and_members() {
    let g = java_graph(GREETER);
    let class = only(&g, "Greeter");
    assert!(matches!(class.kind, SymbolKind::Class));
    assert_eq!(class.visibility, Visibility::Public);
    assert!(class.modifier.is_empty());
    assert_eq!(class.language, Language::Java);
    assert_eq!(class.file, "src/Greeter.java");
    assert_eq!(class.location[0].start_line, 1);
    assert_eq!(class.location[0].start_column, 1);
    assert_eq!(class.location[0].end_line, 8);

    let count = only(&g, "count");
    assert_eq!(count.visibility, Visibility::Private);
    assert!(matches!(count.modifier[..], [Modifier::Static, Modifier::Final]));
    match &count.kind {
        SymbolKind::MemberVariable(m) => {
            assert_eq!(m.value, "3");
            assert_eq!(m.dtype.name, "int");
        },
        other => panic!("unexpected kind {:?}", other),
    }

    let greet = only(&g, "greet");
    assert_eq!(greet.visibility, Visibility::Public);
    match &greet.kind {
        SymbolKind::FunctionDefinition(f) => {
            assert_eq!(f.return_type.name, "String");
            assert_eq!(f.params.len(), 2);
            assert_eq!(f.params[0].name, "name");
            assert_eq!(f.params[0].type_specifier, "String");
            assert!(f.params[0].modifiers.is_empty());
            assert_eq!(f.params[1].name, "times");
            assert_eq!(f.params[1].type_specifier, "int");
            assert!(matches!(f.params[1].modifiers[..], [Modifier::Final]));
            assert!(!f.params[1].variadic);
        },
        other => panic!("unexpected kind {:?}", other),
    }
    assert_eq!(
        greet.metadata.entries,
        vec![(String::from("throws"), String::from("IOException,RuntimeException"))]
    );

    let helper_decl: Vec<&Symbol> = named(&g, "helper")
        .into_iter()
        .filter(|s| matches!(s.kind, SymbolKind::FunctionDefinition(_)))
        .collect();
    assert_eq!(helper_decl.len(), 1);
    assert_eq!(helper_decl[0].visibility, Visibility::Package);
}

#[test]
fn java_root_is_a_module() {
    let g = java_graph(GREETER);
    let modules: Vec<&Symbol> =
        g.symbols().values().filter(|s| matches!(s.kind, SymbolKind::Module)).collect();
    assert_eq!(modules.len(), 1);
    assert_eq!(modules[0].name, "");
    assert_eq!(modules[0].visibility, Visibility::Unknown);
    // Module, class, field, two methods, one call.
    assert_eq!(g.symbols().len(), 6);
    for (id, s) in g.symbols() {
        assert_eq!(*id, s.id);
    }
}

#[test]
fn java_inheritance_edges() {
    let g = java_graph(GREETER);
    let class = only(&g, "Greeter");
    let inherited: Vec<&str> = g
        .relationships_from(class.id)
        .into_iter()
        .filter(|r| r.kind == RelationshipKind::Inherits)
        .map(|r| r.is_unresolved().expect("inheritance is by name"))
        .collect();
    assert_eq!(inherited, vec!["Runnable", "Comparable", "Base"]);
}

#[test]
fn java_containment_and_calls() {
    let g = java_graph(GREETER);
    let class = only(&g, "Greeter");
    let greet = only(&g, "greet");
    let contained: Vec<String> = g
        .relationships_from(class.id)
        .into_iter()
        .filter(|r| r.kind == RelationshipKind::Contains)
        .map(|r| match r.to {
            RelationshipTarget::Resolved(id) => g.symbol(id).expect("edge to a symbol").name.clone(),
            RelationshipTarget::Unresolved(_) => panic!("containment is resolved"),
        })
        .collect();
    assert_eq!(contained, vec!["count", "greet", "helper"]);

    let calls: Vec<_> = g.relationships_from(greet.id);
    assert_eq!(calls.len(), 1);
    assert_eq!(calls[0].kind, RelationshipKind::Calls);
    let callee = match calls[0].to {
        RelationshipTarget::Resolved(id) => g.symbol(id).expect("call symbol"),
        RelationshipTarget::Unresolved(_) => panic!("calls are resolved"),
    };
    assert_eq!(callee.name, "helper");
    assert!(matches!(callee.kind, SymbolKind::FunctionCall));
    let into_call = g.relationships_to(callee.id);
    assert_eq!(into_call.len(), 1);
    assert_eq!(into_call[0].from, greet.id);
}

#[test]
fn java_permits_and_generics() {
    let source = "public sealed class Shape<T extends Comparable<T>, U> permits Circle, Square {\n}\n";
    let g = java_graph(source);
    let shape = only(&g, "Shape");
    assert_eq!(shape.visibility, Visibility::Public);
    match &shape.modifier[..] {
        [Modifier::Special(s)] => assert_eq!(s, "sealed"),
        other => panic!("unexpected modifiers {:?}", other),
    }
    assert_eq!(shape.generics.len(), 2);
    assert_eq!(shape.generics[0].name, "T");
    assert_eq!(shape.generics[0].bounds, vec![String::from("Comparable")]);
    assert_eq!(shape.generics[1].name, "U");
    assert!(shape.generics[1].bounds.is_empty());
    let permitted: Vec<&str> = g
        .relationships_from(shape.id)
        .into_iter()
        .filter(|r| r.kind == RelationshipKind::Permits)
        .map(|r| r.is_unresolved().expect("permits are by name"))
        .collect();
    assert_eq!(permitted, vec!["Circle", "Square"]);
}

#[test]
fn java_constructor() {
    let source = "class Point {\n    Point(int x, int... rest) {}\n}\n";
    let g = java_graph(source);
    let ctors: Vec<&Symbol> = named(&g, "Point")
        .into_iter()
        .filter(|s| matches!(s.kind, SymbolKind::Constructor(_)))
        .collect();
    assert_eq!(ctors.len(), 1);
    match &ctors[0].kind {
        SymbolKind::Constructor(c) => {
            assert_eq!(c.params.len(), 2);
            assert_eq!(c.params[0].name, "x");
            assert!(!c.params[0].variadic);
            assert!(c.params[1].variadic);
        },
        _ => unreachable!(),
    }
    let class: Vec<&Symbol> =
        named(&g, "Point").into_iter().filter(|s| matches!(s.kind, SymbolKind::Class)).collect();
    assert_eq!(class.len(), 1);
    assert_eq!(class[0].visibility, Visibility::Package);
}

#[test]
fn java_first_visibility_word_wins() {
    let source = "class Holder {\n    public private static int n;\n    protected final int m;\n    static int k;\n}\n";
    let g = java_graph(source);
    let n = only(&g, "n");
    assert_eq!(n.visibility, Visibility::Public);
    assert!(matches!(n.modifier[..], [Modifier::Static]));
    let m = only(&g, "m");
    assert_eq!(m.visibility, Visibility::Protected);
    assert!(matches!(m.modifier[..], [Modifier::Final]));
    let k = only(&g, "k");
    assert_eq!(k.visibility, Visibility::Package);
    assert!(matches!(k.modifier[..], [Modifier::Static]));
}
