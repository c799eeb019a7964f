use codeviz::diff::{diff, GraphDiff};
use codeviz::inject::{inject_mermaid, InjectError};
use codeviz::ir::{CodeGraph, Edge, EdgeKind, GraphMeta, Node, NodeKind};
use codeviz::parser::DummyNode;
use codeviz::path_utils::normalize_path;
use codeviz::render::{render_diff_human, render_dot, sanitize_id, DiagramKind, MermaidRenderer, OutputFormat};

fn empty_meta() -> GraphMeta {
    GraphMeta {
        language: "test".to_string(),
        source_root: "".to_string(),
        generated_at: "".to_string(),
        node_count: 0,
        edge_count: 0,
    }
}

fn node(id: &str, label: &str, kind: NodeKind, file: &str) -> Node {
    Node {
        id: id.to_string(),
        label: label.to_string(),
        kind,
        file_path: file.to_string(),
        line: None,
        is_public: true,
        parent_id: None,
    }
}

fn edge(from: &str, to: &str, kind: EdgeKind) -> Edge {
    Edge { from_id: from.to_string(), to_id: to.to_string(), kind }
}

#[test]
fn test_diff_identical() {
    let mut graph = CodeGraph::new(empty_meta());
    graph.nodes.push(node("node1", "Node 1", NodeKind::File, "node1.rs"));
    let diff_result = diff(&graph, &graph);
    assert!(diff_result.added_nodes.is_empty());
    assert!(diff_result.removed_nodes.is_empty());
    assert!(diff_result.added_edges.is_empty());
    assert!(diff_result.removed_edges.is_empty());
}

#[test]
fn test_diff_added_node() {
    let base = CodeGraph::new(empty_meta());
    let mut head = CodeGraph::new(empty_meta());
    head.nodes.push(node("node1", "Node 1", NodeKind::File, "node1.rs"));
    let diff_result = diff(&base, &head);
    assert_eq!(diff_result.added_nodes.len(), 1);
    assert_eq!(diff_result.added_nodes[0].id, "node1");
    assert!(diff_result.removed_nodes.is_empty());
}

#[test]
fn test_diff_removed_node() {
    let mut base = CodeGraph::new(empty_meta());
    let head = CodeGraph::new(empty_meta());
    base.nodes.push(node("node1", "Node 1", NodeKind::File, "node1.rs"));
    let diff_result = diff(&base, &head);
    assert_eq!(diff_result.removed_nodes.len(), 1);
    assert_eq!(diff_result.removed_nodes[0].id, "node1");
    assert!(diff_result.added_nodes.is_empty());
}

#[test]
fn test_diff_edges() {
    let mut base = CodeGraph::new(empty_meta());
    let mut head = CodeGraph::new(empty_meta());
    base.edges.push(edge("A", "B", EdgeKind::Imports));
    head.edges.push(edge("A", "C", EdgeKind::Imports));
    let diff_result = diff(&base, &head);
    assert_eq!(diff_result.removed_edges.len(), 1);
    assert_eq!(diff_result.removed_edges[0].to_id, "B");
    assert_eq!(diff_result.added_edges.len(), 1);
    assert_eq!(diff_result.added_edges[0].to_id, "C");
}

#[test]
fn test_diff_edge_kind_matters() {
    let mut base = CodeGraph::new(empty_meta());
    let mut head = CodeGraph::new(empty_meta());
    base.edges.push(edge("A", "B", EdgeKind::Imports));
    head.edges.push(edge("A", "B", EdgeKind::Calls));
    head.nodes.push(node("n", "other label", NodeKind::Class, "x"));
    base.nodes.push(node("n", "label", NodeKind::File, "y"));
    let d = diff(&base, &head);
    assert_eq!(d.added_edges.len(), 1);
    assert_eq!(d.removed_edges.len(), 1);
    assert!(d.added_nodes.is_empty());
    assert!(d.removed_nodes.is_empty());
}

#[test]
fn test_normal_injection() {
    let markdown = "Before\n<!-- CODEVIZ_START -->\nold content\n<!-- CODEVIZ_END -->\nAfter";
    let mermaid = "graph TD\n    A --> B";
    let result = inject_mermaid(markdown, mermaid).unwrap();
    assert_eq!(
        result,
        "Before\n<!-- CODEVIZ_START -->\n```mermaid\ngraph TD\n    A --> B\n```\n<!-- CODEVIZ_END -->\nAfter"
    );
}

#[test]
fn test_missing_both_tags() {
    let result = inject_mermaid("Just some normal markdown here.", "graph TD\n    A --> B");
    assert_eq!(result, Err(InjectError::MissingTags));
}

#[test]
fn test_only_one_tag() {
    let mermaid = "graph TD\n    A --> B";
    assert_eq!(inject_mermaid("<!-- CODEVIZ_START -->\nSome content", mermaid), Err(InjectError::MalformedTags));
    assert_eq!(inject_mermaid("Some content\n<!-- CODEVIZ_END -->", mermaid), Err(InjectError::MalformedTags));
    assert_eq!(inject_mermaid("<!-- CODEVIZ_END -->\n<!-- CODEVIZ_START -->", mermaid), Err(InjectError::MalformedTags));
    assert_eq!(
        inject_mermaid("<!-- CODEVIZ_START -->\n<!-- CODEVIZ_START -->\n<!-- CODEVIZ_END -->", mermaid),
        Err(InjectError::MalformedTags)
    );
}

#[test]
fn test_idempotency() {
    let original_markdown = "Header\n<!-- CODEVIZ_START -->\n<!-- CODEVIZ_END -->\nFooter";
    let mermaid = "graph TD\n    C --> D";
    let first_injection = inject_mermaid(original_markdown, mermaid).unwrap();
    let second_injection = inject_mermaid(&first_injection, mermaid).unwrap();
    assert_eq!(first_injection, second_injection);
}

#[test]
fn test_empty_mermaid_string() {
    let result = inject_mermaid("Header\n<!-- CODEVIZ_START -->\n<!-- CODEVIZ_END -->", "").unwrap();
    assert_eq!(result, "Header\n<!-- CODEVIZ_START -->\n```mermaid\n```\n<!-- CODEVIZ_END -->");
}

#[test]
fn test_inject_keeps_final_newline_and_messages() {
    let result = inject_mermaid("<!-- CODEVIZ_START --><!-- CODEVIZ_END -->", "x\n").unwrap();
    assert_eq!(result, "<!-- CODEVIZ_START -->\n```mermaid\nx\n```\n<!-- CODEVIZ_END -->");
    assert_eq!(InjectError::MissingTags.message(), "Missing CODEVIZ sentinel tags in markdown");
    assert_eq!(
        InjectError::MalformedTags.message(),
        "Malformed CODEVIZ sentinel tags (missing one or wrong order)"
    );
}

#[test]
fn test_dummy_node_creation() {
    let node = DummyNode::new("Test".to_string()).expect("Should create successfully in test");
    assert_eq!(node.name, "Test");
}

#[test]
fn test_dummy_node_empty_name() {
    let node = DummyNode::new("".to_string());
    assert!(node.is_err());
}

#[test]
fn test_forward_slash_unchanged() {
    assert_eq!(normalize_path("src/main.rs"), "src/main.rs");
}

#[test]
fn test_backslash_converted() {
    assert_eq!(normalize_path("src\\main.rs"), "src/main.rs");
}

#[test]
fn test_mixed_slashes() {
    assert_eq!(normalize_path("src\\lib\\utils.rs"), "src/lib/utils.rs");
}

#[test]
fn test_render_diff_human_empty() {
    let diff = GraphDiff { added_nodes: vec![], removed_nodes: vec![], added_edges: vec![], removed_edges: vec![] };
    let out = render_diff_human(&diff, "main", "feature").unwrap();
    assert!(out.contains("📊 Architecture diff: main → feature"));
    assert!(out.contains("Added nodes (0):\n     none"));
}

#[test]
fn test_render_diff_human_with_changes() {
    let diff = GraphDiff {
        added_nodes: vec![node("A", "A", NodeKind::File, "A")],
        removed_nodes: vec![],
        added_edges: vec![edge("A", "B", EdgeKind::Imports)],
        removed_edges: vec![],
    };
    let out = render_diff_human(&diff, "main", "feature").unwrap();
    assert!(out.contains("Added nodes (1):\n     A"));
    assert!(out.contains("Added edges (1):\n     A → B [Imports]"));
}

#[test]
fn test_render_dot_exact() {
    let mut graph = CodeGraph::new(empty_meta());
    graph.nodes.push(node("src/a-b.rs::f", "f", NodeKind::Function { is_async: false }, "src/a-b.rs"));
    graph.nodes.push(node("m", "M", NodeKind::Module, "m"));
    graph.edges.push(edge("src/a-b.rs::f", "m", EdgeKind::Calls));
    graph.edges.push(edge("m", "missing", EdgeKind::Imports));
    assert_eq!(
        render_dot(&graph),
        "digraph codeviz {\n    rankdir=TD;\n    \"src_a_b_rs_f\" [label=\"f\" shape=ellipse];\n    \"m\" [label=\"M\" shape=folder];\n    \"src_a_b_rs_f\" -> \"m\" [label=\"Calls\"];\n}\n"
    );
    assert_eq!(sanitize_id("a.b/c::d-e"), "a_b_c_d_e");
}

#[test]
fn test_output_format_parse() {
    assert_eq!("MerMaid".parse::<OutputFormat>(), Ok(OutputFormat::Mermaid));
    assert_eq!("json".parse::<OutputFormat>(), Ok(OutputFormat::Json));
    assert_eq!("DOT".parse::<OutputFormat>(), Ok(OutputFormat::Dot));
    assert_eq!("svg".parse::<OutputFormat>(), Err("Invalid output format: svg".to_string()));
}

fn make_graph() -> CodeGraph {
    CodeGraph {
        nodes: vec![
            Node {
                id: "src/main.rs::main".to_string(),
                label: "main".to_string(),
                kind: NodeKind::Function { is_async: false },
                file_path: "src/main.rs".to_string(),
                line: Some(1),
                is_public: true,
                parent_id: None,
            },
            Node {
                id: "src/parser.rs::parse".to_string(),
                label: "parse".to_string(),
                kind: NodeKind::Function { is_async: false },
                file_path: "src/parser.rs".to_string(),
                line: Some(10),
                is_public: true,
                parent_id: None,
            },
            Node {
                id: "src/config.rs::Config".to_string(),
                label: "Config".to_string(),
                kind: NodeKind::Class,
                file_path: "src/config.rs".to_string(),
                line: Some(5),
                is_public: true,
                parent_id: None,
            },
        ],
        edges: vec![
            edge("src/main.rs::main", "src/parser.rs::parse", EdgeKind::Calls),
            edge("src/main.rs::main", "src/config.rs::Config", EdgeKind::Instantiates),
        ],
        control_flow: Vec::new(),
        meta: GraphMeta {
            language: "rust".to_string(),
            source_root: "/app".to_string(),
            generated_at: "2023-10-10T00:00:00Z".to_string(),
            node_count: 3,
            edge_count: 2,
        },
    }
}

#[test]
fn test_sanitization() {
    assert_eq!(MermaidRenderer::sanitize_id("src/main.rs::foo"), "src_main_rs_foo");
    assert_eq!(MermaidRenderer::sanitize_id("a.b/c::d"), "a_b_c_d");
}

#[test]
fn test_empty_graph() {
    let graph = CodeGraph { nodes: vec![], edges: vec![], control_flow: Vec::new(), meta: empty_meta() };
    let renderer = MermaidRenderer::new();
    assert_eq!(renderer.render(&graph, DiagramKind::ModuleGraph), "graph TD\n");
}

#[test]
fn test_call_graph() {
    let graph = make_graph();
    let renderer = MermaidRenderer::new();
    let out = renderer.render(&graph, DiagramKind::CallGraph);
    assert!(out.starts_with("flowchart TD\n"));
    assert!(out.contains("src_main_rs_main --> src_parser_rs_parse"));
    assert!(!out.contains("src_config_rs_Config"));
}

#[test]
fn test_truncation() {
    let mut nodes = vec![];
    for i in 0..55 {
        nodes.push(Node {
            id: format!("node_{}", i),
            label: format!("Node {}", i),
            kind: NodeKind::File,
            file_path: "path".to_string(),
            line: None,
            is_public: true,
            parent_id: None,
        });
    }
    let graph = CodeGraph { nodes, edges: vec![], control_flow: Vec::new(), meta: empty_meta() };
    let renderer = MermaidRenderer::new();
    let out = renderer.render(&graph, DiagramKind::ModuleGraph);
    assert!(out.starts_with("%% WARNING: graph truncated at 50 nodes\n"));
    assert!(out.contains("graph TD\n"));
}

#[test]
fn test_module_graph() {
    let graph = CodeGraph {
        nodes: vec![
            node("src/main.rs", "main", NodeKind::File, "src/main.rs"),
            node("src/config.rs", "config", NodeKind::File, "src/config.rs"),
        ],
        edges: vec![edge("src/main.rs", "src/config.rs", EdgeKind::Imports)],
        control_flow: Vec::new(),
        meta: empty_meta(),
    };
    let renderer = MermaidRenderer::new();
    let out = renderer.render(&graph, DiagramKind::ModuleGraph);
    assert!(out.starts_with("graph TD\n"));
    assert!(out.contains("src_main_rs --> src_config_rs"));
}

#[test]
fn test_class_diagram() {
    let graph = CodeGraph {
        nodes: vec![
            node("Dog", "Dog", NodeKind::Class, "src/main.rs"),
            node("Animal", "Animal", NodeKind::Class, "src/main.rs"),
        ],
        edges: vec![edge("Dog", "Animal", EdgeKind::Inherits)],
        control_flow: Vec::new(),
        meta: empty_meta(),
    };
    let renderer = MermaidRenderer::new();
    let out = renderer.render(&graph, DiagramKind::ClassDiagram);
    assert!(out.starts_with("classDiagram\n"));
    assert!(out.contains("Animal <|-- Dog\n"));
}

#[test]
fn test_render_diff() {
    let mut diff = GraphDiff { added_nodes: vec![], removed_nodes: vec![], added_edges: vec![], removed_edges: vec![] };
    diff.added_nodes.push(node("src/new.rs", "new.rs", NodeKind::File, "src/new.rs"));
    let renderer = MermaidRenderer::new();
    let result = renderer.render_diff(&diff, DiagramKind::ModuleGraph);
    assert!(result.contains("graph TD"));
    assert!(result.contains("class src_new_rs added;"));
    assert!(result.contains("classDef added fill:#aaffaa"));
}

#[test]
fn test_render_diff_edges_exact() {
    let diff = GraphDiff {
        added_nodes: vec![],
        removed_nodes: vec![],
        added_edges: vec![edge("a", "b", EdgeKind::Implements), edge("a", "c", EdgeKind::Calls)],
        removed_edges: vec![edge("x", "y", EdgeKind::Inherits)],
    };
    let out = MermaidRenderer::new().render_diff(&diff, DiagramKind::ClassDiagram);
    assert_eq!(
        out,
        "classDiagram\n    classDef added fill:#aaffaa,stroke:#00aa00;\n    classDef removed fill:#ffaaaa,stroke:#aa0000;\n    b <|.. a:::added\n    y <|-- x:::removed\n"
    );
}

#[test]
fn module_and_call_edges_need_both_ends_drawn() {
    let graph = CodeGraph {
        nodes: vec![
            node("a", "a", NodeKind::File, "a"),
            node("b", "b", NodeKind::File, "b"),
            node("f", "f", NodeKind::Function { is_async: false }, "a"),
        ],
        edges: vec![
            edge("a", "x", EdgeKind::Imports),
            edge("a", "b", EdgeKind::Imports),
            edge("f", "g", EdgeKind::Calls),
        ],
        control_flow: Vec::new(),
        meta: empty_meta(),
    };
    let renderer = MermaidRenderer::new();
    assert_eq!(renderer.render(&graph, DiagramKind::ModuleGraph), "graph TD\n    a --> b\n");
    assert_eq!(renderer.render(&graph, DiagramKind::CallGraph), "flowchart TD\n");
    let classes = CodeGraph {
        nodes: vec![node("Dog", "Dog", NodeKind::Class, "m")],
        edges: vec![edge("Dog", "Display", EdgeKind::Implements)],
        control_flow: Vec::new(),
        meta: empty_meta(),
    };
    assert_eq!(renderer.render(&classes, DiagramKind::ClassDiagram), "classDiagram\n    Display <|.. Dog\n");
}

#[test]
fn absorbing_a_graph_appends_its_nodes_and_edges_and_recounts() {
    let mut merged = CodeGraph::new(GraphMeta {
        language: "mixed".to_string(),
        source_root: "/src".to_string(),
        generated_at: "t".to_string(),
        node_count: 0,
        edge_count: 0,
    });
    let mut a = CodeGraph::new(empty_meta());
    a.nodes.push(node("a.py", "a.py", NodeKind::File, "a.py"));
    a.nodes.push(node("a.py::f", "f", NodeKind::Function { is_async: false }, "a.py"));
    a.edges.push(edge("a.py", "a.py::f", EdgeKind::Contains));
    let mut b = CodeGraph::new(empty_meta());
    b.nodes.push(node("b.py", "b.py", NodeKind::File, "b.py"));
    merged.absorb(a);
    merged.absorb(b);
    let ids: Vec<&str> = merged.nodes.iter().map(|n| n.id.as_str()).collect();
    assert_eq!(ids, vec!["a.py", "a.py::f", "b.py"]);
    assert_eq!(merged.edges.len(), 1);
    assert_eq!(merged.meta.node_count, 3);
    assert_eq!(merged.meta.edge_count, 1);
    assert_eq!(merged.meta.language, "mixed");
    assert_eq!(merged.meta.source_root, "/src");
}
