use codeviz::ast_graph::{get_diagram_kind, graph_from_ast, rows_fit_check, supported_languages, Position, TsNode};
use codeviz::ir::{CodeGraph, EdgeKind, GraphMeta, Node, NodeKind};
use codeviz::render::{DiagramKind, MermaidRenderer};

fn ast(node_type: &str, text: &str, row: u32, children: Vec<TsNode>) -> TsNode {
    TsNode {
        node_type: node_type.to_string(),
        text: text.to_string(),
        start_position: Position { row, column: 0 },
        end_position: Position { row: row + 1, column: 0 },
        children,
    }
}

#[test]
fn test_render_graph_module() {
    let mut graph = CodeGraph::new(GraphMeta {
        language: "python".to_string(),
        source_root: String::new(),
        generated_at: String::new(),
        node_count: 1,
        edge_count: 0,
    });
    graph.nodes.push(Node {
        id: "file.py".to_string(),
        label: "file.py".to_string(),
        kind: NodeKind::File,
        file_path: "file.py".to_string(),
        line: None,
        is_public: true,
        parent_id: None,
    });
    let kind = get_diagram_kind("module").unwrap();
    assert_eq!(kind, DiagramKind::ModuleGraph);
    let output = MermaidRenderer::new().render(&graph, kind);
    assert!(output.starts_with("graph TD\n"));
}

#[test]
fn test_unknown_diagram_kind() {
    let result = get_diagram_kind("unknown");
    assert!(result.is_err());
    assert_eq!(result.unwrap_err(), "Unknown diagram kind: unknown");
}

#[test]
fn test_parse_and_build_graph() {
    let root = ast("program", "", 0, vec![ast("function_definition", "def test(): pass", 0, vec![ast("identifier", "test", 0, vec![])])]);
    let graph = graph_from_ast("python", "test.py", &root);
    assert!(graph.nodes.iter().any(|n| n.id == "test.py::test"));
}

#[test]
fn test_parse_and_build_graph_inheritance() {
    let root = ast("program", "", 0, vec![ast("class_definition", "class Dog(Animal): pass", 0, vec![
        ast("identifier", "Dog", 0, vec![]),
        ast("argument_list", "(Animal)", 0, vec![ast("identifier", "Animal", 0, vec![])]),
    ])]);
    let graph = graph_from_ast("python", "test.py", &root);
    let inherits_edge = graph.edges.iter().find(|e| e.kind == EdgeKind::Inherits);
    assert!(inherits_edge.is_some());
    let edge = inherits_edge.unwrap();
    assert_eq!(edge.from_id, "test.py::Dog");
    assert_eq!(edge.to_id, "test.py::Animal");
}

#[test]
fn test_parse_and_build_graph_method_call() {
    let root = ast("program", "", 0, vec![ast("function_definition", "def test(): d.bark()", 0, vec![
        ast("identifier", "test", 0, vec![]),
        ast("call", "d.bark()", 0, vec![ast("attribute", "d.bark", 0, vec![
            ast("identifier", "d", 0, vec![]),
            ast("identifier", "bark", 0, vec![]),
        ])]),
    ])]);
    let graph = graph_from_ast("python", "test.py", &root);
    let calls_edge = graph.edges.iter().find(|e| e.kind == EdgeKind::Calls);
    assert!(calls_edge.is_some());
    let edge = calls_edge.unwrap();
    assert_eq!(edge.from_id, "test.py::test");
    assert_eq!(edge.to_id, "test.py::bark");
}

#[test]
fn test_ast_scopes_lines_and_jsx() {
    let root = ast("program", "", 0, vec![
        ast("class_declaration", "class A", 2, vec![
            ast("type_identifier", "A", 2, vec![]),
            ast("method_definition", "m() {}", 3, vec![ast("property_identifier", "m", 3, vec![])]),
        ]),
        ast("variable_declarator", "App = () => <Button/>", 5, vec![
            ast("identifier", "App", 5, vec![]),
            ast("arrow_function", "() => <Button/>", 5, vec![
                ast("jsx_self_closing_element", "<Button/>", 5, vec![ast("identifier", "Button", 5, vec![])]),
            ]),
        ]),
    ]);
    let graph = graph_from_ast("typescript", "src/app.tsx", &root);
    assert_eq!(graph.nodes[0].id, "src/app.tsx");
    assert_eq!(graph.nodes[0].label, "app.tsx");
    let a = graph.nodes.iter().find(|n| n.id == "src/app.tsx::A").unwrap();
    assert_eq!(a.kind, NodeKind::Class);
    assert_eq!(a.line, Some(3));
    assert_eq!(a.parent_id.as_deref(), Some("src/app.tsx"));
    let m = graph.nodes.iter().find(|n| n.id == "src/app.tsx::m").unwrap();
    assert_eq!(m.parent_id.as_deref(), Some("src/app.tsx::A"));
    assert!(graph.edges.iter().any(|e| e.from_id == "src/app.tsx::A" && e.to_id == "src/app.tsx::m" && e.kind == EdgeKind::Contains));
    assert!(graph.nodes.iter().any(|n| n.id == "src/app.tsx::App" && n.kind == NodeKind::Function { is_async: false }));
    // The arrow function has no identifier of its own, so the JSX use stays in App's scope.
    assert!(graph.edges.iter().any(|e| e.from_id == "src/app.tsx::App" && e.to_id == "src/app.tsx::Button"
        && e.kind == EdgeKind::Instantiates));
    assert_eq!(graph.meta.language, "typescript");
    assert_eq!(graph.meta.node_count, graph.nodes.len());
    assert_eq!(supported_languages(), vec!["python", "typescript", "javascript", "go", "rust", "java"]);
}

fn at_row(node_type: &str, text: &str, row: u32, children: Vec<TsNode>) -> TsNode {
    TsNode {
        node_type: node_type.to_string(),
        text: text.to_string(),
        start_position: Position { row, column: 0 },
        end_position: Position { row, column: 0 },
        children,
    }
}

#[test]
fn rows_fit_check_finds_a_declaration_on_the_last_row() {
    let named = at_row("function_declaration", "", u32::MAX, vec![at_row("identifier", "f", u32::MAX, vec![])]);
    let root = at_row("program", "", 0, vec![named]);
    assert!(!rows_fit_check(&root));
    let unnamed = at_row("function_declaration", "", u32::MAX, vec![]);
    let plain = at_row("identifier", "x", u32::MAX, vec![]);
    assert!(rows_fit_check(&at_row("program", "", 0, vec![unnamed, plain])));
    let fine = at_row("class_declaration", "", 7, vec![at_row("type_identifier", "C", 7, vec![])]);
    assert!(rows_fit_check(&at_row("program", "", 0, vec![fine])));
}

#[test]
fn every_symbol_the_walk_adds_is_public_and_every_edge_leads_into_the_file() {
    let root = ast("program", "", 0, vec![
        ast("class_declaration", "class B extends A", 0, vec![
            ast("type_identifier", "B", 0, vec![]),
            ast("class_heritage", "extends A", 0, vec![ast("identifier", "A", 0, vec![])]),
            ast("method_definition", "run() { go() }", 1, vec![
                ast("property_identifier", "run", 1, vec![]),
                ast("call_expression", "go()", 1, vec![ast("identifier", "go", 1, vec![])]),
            ]),
        ]),
    ]);
    let graph = graph_from_ast("typescript", "src/b.ts", &root);
    assert_eq!(graph.nodes[0].id, "src/b.ts");
    for n in &graph.nodes[1..] {
        assert_eq!(n.id, format!("src/b.ts::{}", n.label));
        assert!(n.is_public);
        assert!(n.kind == NodeKind::Class || n.kind == NodeKind::Function { is_async: false });
    }
    assert!(!graph.edges.is_empty());
    for e in &graph.edges {
        assert!(e.to_id.starts_with("src/b.ts::"), "{}", e.to_id);
        if e.kind == EdgeKind::Contains {
            assert!(graph.nodes.iter().any(|n| n.id == e.to_id && n.parent_id.as_deref() == Some(e.from_id.as_str())));
        }
    }
    for n in &graph.nodes[1..] {
        let p = n.parent_id.as_deref().unwrap();
        assert!(graph.edges.iter().any(|e| e.kind == EdgeKind::Contains && e.from_id == p && e.to_id == n.id));
    }
}
