use code_graph::grammer::cpp::sanitize_template_names;
use code_graph::graph::{Graph, SourceFile};
use code_graph::relationship::{RelationshipKind, RelationshipTarget};
use code_graph::symbol::{Language, Modifier, Symbol, SymbolKind, Visibility};

const SHAPES: &str = "class Shape {
public:
    virtual double area() const;
    int scale(int factor, const char* label, int& out);
    int sides;
private:
    int id = 7;
};

struct Point {
    int x;
};

template <typename T, class U>
class Box : public Base, private Other {
};
";

fn cpp_graph(content: &str) -> Graph {
    let file = SourceFile {
        path: String::from("shapes.cpp"),
        extension: Some(String::from("cpp")),
        content: String::from(content),
    };
    Graph::create(vec![file]).expect("creating a graph never fails")
}

fn named<'a>(g: &'a Graph, name: &str) -> Vec<&'a Symbol> {
    g.symbols().values().filter(|s| s.name == name).collect()
}

fn only_of<'a>(g: &'a Graph, name: &str, kind: SymbolKind) -> &'a Symbol {
    let found: Vec<&Symbol> = named(g, name).into_iter().filter(|s| s.kind == kind).collect();
    assert_eq!(found.len(), 1, "symbols named {:?}: {:?}", name, found);
    found[0]
}

#[test]
fn template_names_are_sanitized() {
    assert_eq!(sanitize_template_names("class T"), "T");
    assert_eq!(sanitize_template_names("typename Item"), "Item");
    assert_eq!(sanitize_template_names("int N"), "int N");
    assert_eq!(sanitize_template_names("classy"), "classy");
    assert_eq!(sanitize_template_names("class typename X"), "typename X");
    assert_eq!(sanitize_template_names(""), "");
}

#[test]
fn cpp_class_members() {
    let g = cpp_graph(SHAPES);
    let shape = only_of(&g, "Shape", SymbolKind::Class);
    assert_eq!(shape.visibility, Visibility::Private);
    assert_eq!(shape.language, Language::Cpp);
    assert_eq!(shape.file, "shapes.cpp");
    assert_eq!(shape.location[0].start_line, 1);
    assert_eq!(shape.location[0].end_line, 8);

    let area: Vec<&Symbol> = named(&g, "area");
    assert_eq!(area.len(), 1);
    let area = area[0];
    assert_eq!(area.visibility, Visibility::Public);
    assert!(matches!(area.modifier[..], [Modifier::Constant, Modifier::Virtual]));
    match &area.kind {
        SymbolKind::FunctionDefinition(f) => {
            assert_eq!(f.return_type.name, "double");
            assert_eq!(f.return_type.pointer_depth, 0);
            assert!(!f.return_type.reference);
            assert!(f.params.is_empty());
            assert_eq!(f.value, "");
        },
        other => panic!("unexpected kind {:?}", other),
    }

    let sides = named(&g, "sides");
    assert_eq!(sides.len(), 1);
    assert_eq!(sides[0].visibility, Visibility::Public);
    match &sides[0].kind {
        SymbolKind::MemberVariable(m) => {
            assert_eq!(m.value, "");
            assert_eq!(m.dtype.name, "int");
        },
        other => panic!("unexpected kind {:?}", other),
    }

    let id = named(&g, "id");
    assert_eq!(id.len(), 1);
    assert_eq!(id[0].visibility, Visibility::Private);
    match &id[0].kind {
        SymbolKind::MemberVariable(m) => assert_eq!(m.value, "7"),
        other => panic!("unexpected kind {:?}", other),
    }
}

#[test]
fn cpp_parameters() {
    let g = cpp_graph(SHAPES);
    let scale = named(&g, "scale");
    assert_eq!(scale.len(), 1);
    match &scale[0].kind {
        SymbolKind::FunctionDefinition(f) => {
            assert_eq!(f.return_type.name, "int");
            assert_eq!(f.params.len(), 3);
            let p0 = &f.params[0];
            assert_eq!(p0.type_specifier, "int");
            assert_eq!(p0.name, "factor");
            assert_eq!(p0.pointer_depth, 0);
            assert!(!p0.reference);
            assert!(p0.modifiers.is_empty());
            assert_eq!(p0.default, None);
            let p1 = &f.params[1];
            assert_eq!(p1.type_specifier, "char");
            assert_eq!(p1.name, "* label");
            assert_eq!(p1.pointer_depth, 1);
            assert!(matches!(p1.modifiers[..], [Modifier::Constant]));
            let p2 = &f.params[2];
            assert_eq!(p2.name, "& out");
            assert!(p2.reference);
            assert_eq!(p2.pointer_depth, 0);
        },
        other => panic!("unexpected kind {:?}", other),
    }
}

#[test]
fn cpp_visibility_carries_over() {
    let g = cpp_graph(SHAPES);
    let point = only_of(&g, "Point", SymbolKind::Struct);
    assert_eq!(point.visibility, Visibility::Private);
    let x = named(&g, "x");
    assert_eq!(x.len(), 1);
    assert_eq!(x[0].visibility, Visibility::Private);
}

#[test]
fn cpp_template_class() {
    let g = cpp_graph(SHAPES);
    let boxed = only_of(&g, "Box", SymbolKind::Class);
    let names: Vec<&str> = boxed.generics.iter().map(|x| x.name.as_str()).collect();
    assert_eq!(names, vec!["T", "U"]);
    assert!(boxed.generics.iter().all(|x| x.bounds.is_empty()));
    let bases: Vec<&str> = g
        .relationships_from(boxed.id)
        .into_iter()
        .filter(|r| r.kind == RelationshipKind::Inherits)
        .map(|r| r.is_unresolved().expect("bases are by name"))
        .collect();
    assert_eq!(bases, vec!["Base", "Other"]);
}

#[test]
fn cpp_root_and_containment() {
    let g = cpp_graph(SHAPES);
    let roots: Vec<&Symbol> =
        g.symbols().values().filter(|s| matches!(s.kind, SymbolKind::Root)).collect();
    assert_eq!(roots.len(), 1);
    assert_eq!(roots[0].name, "Shape");
    assert_eq!(g.symbols().len(), 9);
    let top: Vec<String> = g
        .relationships_from(roots[0].id)
        .into_iter()
        .map(|r| {
            assert_eq!(r.kind, RelationshipKind::Contains);
            match r.to {
                RelationshipTarget::Resolved(id) => g.symbol(id).expect("a symbol").name.clone(),
                RelationshipTarget::Unresolved(_) => panic!("containment is resolved"),
            }
        })
        .collect();
    assert_eq!(top, vec!["Shape", "Point", "Box"]);
    let shape = only_of(&g, "Shape", SymbolKind::Class);
    let members: Vec<String> = g
        .relationships_from(shape.id)
        .into_iter()
        .map(|r| match r.to {
            RelationshipTarget::Resolved(id) => g.symbol(id).expect("a symbol").name.clone(),
            RelationshipTarget::Unresolved(_) => panic!("containment is resolved"),
        })
        .collect();
    assert_eq!(members, vec!["area", "scale", "sides", "id"]);
}

#[test]
fn cpp_destructor_and_free_function() {
    // The parameter list of a destructor definition is met before its
    // name, so the definition is not told apart as a destructor.
    let source = "class Res {\npublic:\n    ~Res() {}\n};\n";
    let g = cpp_graph(source);
    let dtor = only_of(&g, "Res", SymbolKind::Unknown);
    assert_eq!(dtor.visibility, Visibility::Public);
    assert!(named(&g, "Res").iter().all(|s| !matches!(s.kind, SymbolKind::Destructor(_))));

    let source = "static int add(int a, int b = 2) { return a + b; }\n";
    let g = cpp_graph(source);
    let add = named(&g, "add");
    let add: Vec<&Symbol> =
        add.into_iter().filter(|s| matches!(s.kind, SymbolKind::FunctionDefinition(_))).collect();
    assert_eq!(add.len(), 1);
    assert_eq!(add[0].visibility, Visibility::Private);
    assert!(matches!(add[0].modifier[..], [Modifier::Static]));
    match &add[0].kind {
        SymbolKind::FunctionDefinition(f) => {
            assert_eq!(f.return_type.name, "int");
            assert_eq!(f.params.len(), 2);
            assert_eq!(f.params[0].name, "a");
            assert_eq!(f.params[0].default, None);
            assert_eq!(f.params[1].name, "b");
            assert_eq!(f.params[1].default, Some(String::from("2")));
        },
        _ => unreachable!(),
    }
}
