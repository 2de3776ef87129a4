use code_graph::grammer::cpp::CppError;
use code_graph::grammer::java::JavaError;
use code_graph::graph::{is_source_extension, language_for_extension, Graph, GraphError, SourceFile};
use code_graph::parser::{parse, parse_source};
use code_graph::query::{
    Direction, FindQuery, Query, QueryEngine, QueryResult, RelationshipQuery, SymbolKindQuery,
};
use code_graph::relationship::{RelationshipKind, RelationshipTarget};
use code_graph::symbol::{Language, SymbolKind};

const GREETER: &str = "public class Greeter extends Base implements Runnable, Comparable {
    private static final int count = 3;
    public String greet(String name) throws IOException {
        return helper(name);
    }
    void helper(String s) {
    }
}
";

fn source(path: &str, extension: Option<&str>, content: &str) -> SourceFile {
    SourceFile {
        path: String::from(path),
        extension: extension.map(String::from),
        content: String::from(content),
    }
}

fn greeter_graph() -> Graph {
    Graph::create(vec![source("Greeter.java", Some("java"), GREETER)]).expect("never fails")
}

fn find(
    g: &Graph,
    name: Option<&str>,
    kind: Option<SymbolKindQuery>,
    relationship: Option<RelationshipQuery>,
) -> QueryResult {
    QueryEngine::new(g).execute(Query::Find(FindQuery {
        name: name.map(String::from),
        kind,
        relationship,
    }))
}

fn names(result: &QueryResult) -> Vec<String> {
    let mut out: Vec<String> = result.symbols().iter().map(|s| s.name.clone()).collect();
    out.sort();
    out
}

#[test]
fn extensions_pick_the_language() {
    assert_eq!(language_for_extension(Some("cpp")), Some(Language::Cpp));
    assert_eq!(language_for_extension(Some("cx")), Some(Language::Cpp));
    assert_eq!(language_for_extension(Some("cxx")), Some(Language::Cpp));
    assert_eq!(language_for_extension(Some("java")), Some(Language::Java));
    assert_eq!(language_for_extension(Some("py")), None);
    assert_eq!(language_for_extension(Some("rs")), None);
    assert_eq!(language_for_extension(Some("CPP")), None);
    assert_eq!(language_for_extension(None), None);
}

#[test]
fn gathered_source_extensions() {
    assert!(is_source_extension(Some("cpp")));
    assert!(is_source_extension(Some("java")));
    assert!(is_source_extension(Some("py")));
    assert!(is_source_extension(Some("rs")));
    assert!(!is_source_extension(Some("cxx")));
    assert!(!is_source_extension(Some("txt")));
    assert!(!is_source_extension(Some("")));
    assert!(!is_source_extension(None));
}

#[test]
fn unsupported_files_give_an_empty_graph() {
    let g = Graph::create(vec![
        source("a.py", Some("py"), "class A: pass\n"),
        source("Makefile", None, "all:\n"),
    ])
    .expect("never fails");
    assert!(g.symbols().is_empty());
    assert!(g.relationships().is_empty());
    let empty = Graph::create(Vec::new()).expect("never fails");
    assert!(empty.symbols().is_empty());
}

#[test]
fn files_of_both_languages_are_joined() {
    let g = Graph::create(vec![
        source("Greeter.java", Some("java"), GREETER),
        source("point.cxx", Some("cxx"), "struct Point { int x; };\n"),
        source("notes.txt", Some("txt"), "class Ignored {};\n"),
    ])
    .expect("never fails");
    let java = g.symbols().values().filter(|s| s.language == Language::Java).count();
    let cpp = g.symbols().values().filter(|s| s.language == Language::Cpp).count();
    assert_eq!(java, 6);
    assert_eq!(cpp, 3);
    assert!(g.symbols().values().all(|s| s.name != "Ignored"));
    let point = g.symbols().values().find(|s| s.name == "Point" && s.kind == SymbolKind::Struct);
    assert_eq!(point.expect("the struct").file, "point.cxx");
    for r in g.relationships() {
        assert!(g.symbol(r.from).is_some());
        if let RelationshipTarget::Resolved(id) = r.to {
            assert!(g.symbol(id).is_some());
        }
    }
}

#[test]
fn unreadable_permits_skip_a_file_only_when_walked() {
    let hidden = "public interface Outer {\n    sealed class Inner permits\n    A {}\n}\nclass Visible {}\n";
    let g = Graph::create(vec![source("Outer.java", Some("java"), hidden)]).expect("never fails");
    let names: Vec<&str> = g.symbols().values().map(|s| s.name.as_str()).collect();
    assert!(names.contains(&"Outer"));
    assert!(names.contains(&"Visible"));
    assert!(!names.contains(&"Inner"));
    let walked = "sealed class Shape permits\n    Circle {}\n";
    let g = Graph::create(vec![
        source("Shape.java", Some("java"), walked),
        source("point.cpp", Some("cpp"), "struct Point { int x; };\n"),
    ])
    .expect("never fails");
    assert!(g.symbols().values().all(|s| s.language == Language::Cpp));
    assert_eq!(g.symbols().len(), 3);
}

#[test]
fn symbol_lookup_by_identifier() {
    let g = greeter_graph();
    for (id, s) in g.symbols() {
        assert_eq!(g.symbol(*id).expect("present").name, s.name);
    }
    let unused = (0u128..).find(|k| !g.symbols().contains_key(k)).expect("some free id");
    assert!(g.symbol(unused).is_none());
    assert!(g.relationships_from(unused).is_empty());
    assert!(g.relationships_to(unused).is_empty());
}

#[test]
fn parsing_gives_well_formed_trees() {
    let tree = parse_source(Language::Java, GREETER).expect("java parses");
    assert!(tree.is_well_formed());
    assert_eq!(tree.source, GREETER);
    assert_eq!(tree.nodes[0].kind, "program");
    assert_eq!(tree.nodes[0].parent, None);
    let tree = parse_source(Language::Cpp, "int x;\n").expect("c++ parses");
    assert!(tree.is_well_formed());
    assert_eq!(tree.nodes[0].kind, "translation_unit");
    for (i, node) in tree.nodes.iter().enumerate() {
        for &c in &node.children {
            assert_eq!(tree.nodes[c].parent, Some(i));
        }
        if let Some(p) = node.parent {
            assert!(p < i);
            assert!(tree.nodes[p].children.contains(&i));
        }
    }
    let kinds: Vec<&str> = tree.nodes[0].children.iter().map(|&c| tree.nodes[c].kind.as_str()).collect();
    assert_eq!(kinds, vec!["declaration"]);
    let declaration = tree.nodes[0].children[0];
    let kinds: Vec<&str> =
        tree.nodes[declaration].children.iter().map(|&c| tree.nodes[c].kind.as_str()).collect();
    assert_eq!(kinds, vec!["primitive_type", "identifier", ";"]);
    assert_eq!(tree.nodes[declaration].start, 0);
    assert_eq!(tree.nodes[declaration].end, 6);
    let data = parse(Language::Cpp, "x.cpp", "int x;\n").expect("c++ parses");
    assert_eq!(data.origin, "x.cpp");
    assert_eq!(data.language, Language::Cpp);
}

#[test]
fn graph_errors_wrap_language_errors() {
    let java = GraphError::from(JavaError::StdError(std::io::Error::other("java")));
    assert!(matches!(java, GraphError::JavaError(JavaError::StdError(_))));
    let cpp: GraphError = CppError::StdError(std::io::Error::other("cpp")).into();
    assert!(matches!(cpp, GraphError::CppError(CppError::StdError(_))));
}

#[test]
fn find_by_name_and_kind_with_incoming_calls() {
    let g = greeter_graph();
    let result = find(
        &g,
        Some("helper"),
        Some(SymbolKindQuery::Call),
        Some(RelationshipQuery {
            direction: Direction::Incoming,
            kind: Some(RelationshipKind::Calls),
            depth: 1,
        }),
    );
    assert_eq!(result.symbols().len(), 2);
    assert_eq!(result.symbols()[0].name, "helper");
    assert!(matches!(result.symbols()[0].kind, SymbolKind::FunctionCall));
    assert_eq!(result.symbols()[1].name, "greet");
    assert_eq!(result.relationships().len(), 1);
    let edge = &result.relationships()[0];
    assert_eq!(edge.kind, RelationshipKind::Calls);
    assert_eq!(edge.from, result.symbols()[1].id);
    assert!(matches!(edge.to, RelationshipTarget::Resolved(id) if id == result.symbols()[0].id));
}

#[test]
fn find_without_relationships_yields_the_selected_symbols() {
    let g = greeter_graph();
    let by_name = find(&g, Some("helper"), None, None);
    assert_eq!(names(&by_name), vec!["helper", "helper"]);
    assert!(by_name.relationships().is_empty());
    let functions = find(&g, None, Some(SymbolKindQuery::Function), None);
    assert_eq!(names(&functions), vec!["greet", "helper"]);
    let classes = find(&g, None, Some(SymbolKindQuery::Class), None);
    assert_eq!(names(&classes), vec!["Greeter"]);
    let everything = find(&g, None, None, None);
    assert_eq!(everything.symbols().len(), g.symbols().len());
    let nothing = find(&g, Some("absent"), None, None);
    assert!(nothing.symbols().is_empty());
    let wrong_kind = find(&g, Some("greet"), Some(SymbolKindQuery::Call), None);
    assert!(wrong_kind.symbols().is_empty());
}

#[test]
fn find_with_outgoing_relationships() {
    let g = greeter_graph();
    let inherits = find(
        &g,
        Some("Greeter"),
        None,
        Some(RelationshipQuery {
            direction: Direction::Outgoing,
            kind: Some(RelationshipKind::Inherits),
            depth: 1,
        }),
    );
    assert_eq!(names(&inherits), vec!["Greeter"]);
    let targets: Vec<&str> = inherits
        .relationships()
        .iter()
        .map(|r| match &r.to {
            RelationshipTarget::Unresolved(n) => n.as_str(),
            RelationshipTarget::Resolved(_) => panic!("inheritance is by name"),
        })
        .collect();
    assert_eq!(targets, vec!["Runnable", "Comparable", "Base"]);

    let all = find(
        &g,
        Some("Greeter"),
        None,
        Some(RelationshipQuery { direction: Direction::Outgoing, kind: None, depth: 1 }),
    );
    assert_eq!(all.relationships().len(), 6);
    assert_eq!(all.symbols()[0].name, "Greeter");
    let contained: Vec<&str> = all.symbols()[1..].iter().map(|s| s.name.as_str()).collect();
    assert_eq!(contained, vec!["count", "greet", "helper"]);
    let greeter_id = all.symbols()[0].id;
    assert!(all.relationships().iter().all(|r| r.from == greeter_id));
}

#[test]
fn following_both_ways_yields_outgoing_then_incoming() {
    let g = greeter_graph();
    let both = find(
        &g,
        Some("greet"),
        None,
        Some(RelationshipQuery { direction: Direction::Both, kind: None, depth: 1 }),
    );
    let found: Vec<&str> = both.symbols().iter().map(|s| s.name.as_str()).collect();
    assert_eq!(found, vec!["greet", "helper", "Greeter"]);
    assert!(matches!(both.symbols()[1].kind, SymbolKind::FunctionCall));
    let greet_id = both.symbols()[0].id;
    assert_eq!(both.relationships().len(), 2);
    assert_eq!(both.relationships()[0].kind, RelationshipKind::Calls);
    assert_eq!(both.relationships()[0].from, greet_id);
    assert_eq!(both.relationships()[1].kind, RelationshipKind::Contains);
    assert!(matches!(both.relationships()[1].to, RelationshipTarget::Resolved(id) if id == greet_id));
    let calls_only = find(
        &g,
        Some("greet"),
        None,
        Some(RelationshipQuery {
            direction: Direction::Both,
            kind: Some(RelationshipKind::Calls),
            depth: 1,
        }),
    );
    assert_eq!(calls_only.relationships().len(), 1);
    assert_eq!(names(&calls_only), vec!["greet", "helper"]);
}

#[test]
fn running_a_query_twice_gives_the_same_result() {
    let g = greeter_graph();
    let first = find(&g, None, None, None);
    let second = find(&g, None, None, None);
    let ids = |r: &QueryResult| r.symbols().iter().map(|s| s.id).collect::<Vec<u128>>();
    assert_eq!(ids(&first), ids(&second));
    let walked: Vec<u128> = g.symbols().keys().copied().collect();
    assert_eq!(ids(&first), walked);
}

#[test]
fn kind_queries_match_kinds() {
    assert!(SymbolKindQuery::Call.eq(&SymbolKind::FunctionCall));
    assert!(!SymbolKindQuery::Call.eq(&SymbolKind::Class));
    assert!(SymbolKindQuery::Class == SymbolKind::Class);
    assert!(SymbolKindQuery::Class != SymbolKind::Struct);
    let f = SymbolKind::FunctionDefinition(code_graph::symbol::FunctionDefinition {
        value: String::new(),
        params: Vec::new(),
        return_type: code_graph::symbol::Type {
            reference: false,
            pointer_depth: 0,
            name: String::from("int"),
        },
    });
    assert!(SymbolKindQuery::Function == f);
    assert!(!SymbolKindQuery::Function.eq(&SymbolKind::FunctionCall));
    let result = QueryResult::new(Vec::new(), Vec::new());
    assert!(result.symbols().is_empty() && result.relationships().is_empty());
}

#[test]
fn direct_find_and_collect_agree_with_execute() {
    let g = greeter_graph();
    let engine = QueryEngine::new(&g);
    let query = || FindQuery {
        name: Some(String::from("greet")),
        kind: None,
        relationship: Some(RelationshipQuery { direction: Direction::Both, kind: None, depth: 1 }),
    };
    let via_execute = engine.execute(Query::Find(query()));
    let direct = engine.execute_find(query());
    let ids = |r: &QueryResult| r.symbols().iter().map(|s| s.id).collect::<Vec<u128>>();
    assert_eq!(ids(&via_execute), ids(&direct));
    assert_eq!(via_execute.relationships().len(), direct.relationships().len());

    let greet = direct.symbols()[0].id;
    let mut symbols = Vec::new();
    let mut relationships = Vec::new();
    engine.collect_relationships(
        greet,
        &RelationshipQuery { direction: Direction::Outgoing, kind: None, depth: 1 },
        &mut symbols,
        &mut relationships,
    );
    let outgoing = symbols.len();
    engine.collect_relationships(
        greet,
        &RelationshipQuery { direction: Direction::Incoming, kind: None, depth: 1 },
        &mut symbols,
        &mut relationships,
    );
    let mut both_symbols = Vec::new();
    let mut both_relationships = Vec::new();
    engine.collect_relationships(
        greet,
        &RelationshipQuery { direction: Direction::Both, kind: None, depth: 1 },
        &mut both_symbols,
        &mut both_relationships,
    );
    assert_eq!(outgoing, 1);
    let names = |v: &Vec<code_graph::query::SymbolResult>| v.iter().map(|s| s.name.clone()).collect::<Vec<String>>();
    assert_eq!(names(&symbols), names(&both_symbols));
    assert_eq!(relationships.len(), both_relationships.len());
}
