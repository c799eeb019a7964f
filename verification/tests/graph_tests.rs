use codeviz::ir::{CodeGraph, Edge, EdgeKind, GraphMeta, Node, NodeKind};
use codeviz::callers::CallerTree;
use codeviz::prune::prune_graph;

fn meta(language: &str) -> GraphMeta {
    GraphMeta {
        language: language.to_string(),
        source_root: "".to_string(),
        generated_at: "".to_string(),
        node_count: 0,
        edge_count: 0,
    }
}

fn edge(from: &str, to: &str, kind: EdgeKind) -> Edge {
    Edge { from_id: from.to_string(), to_id: to.to_string(), kind }
}

fn graph_of(edges: Vec<Edge>) -> CodeGraph {
    CodeGraph { nodes: vec![], edges, control_flow: vec![], meta: meta("test") }
}

fn file_node(id: &str) -> Node {
    Node {
        id: id.to_string(),
        label: id.to_string(),
        kind: NodeKind::File,
        file_path: id.to_string(),
        line: None,
        is_public: true,
        parent_id: None,
    }
}

fn check_all_paths() {
    let graph = graph_of(vec![
        edge("A", "B", EdgeKind::Calls),
        edge("B", "C", EdgeKind::Calls),
        edge("A", "C", EdgeKind::Calls),
    ]);
    let paths = graph.all_paths("A", "C", 10);
    assert_eq!(paths.len(), 2);
    assert!(paths.contains(&vec!["A".to_string(), "B".to_string(), "C".to_string()]));
    assert!(paths.contains(&vec!["A".to_string(), "C".to_string()]));
    let paths_limited = graph.all_paths("A", "C", 1);
    assert_eq!(paths_limited.len(), 1);
}

fn check_all_paths_cycles() {
    let graph = graph_of(vec![
        edge("A", "B", EdgeKind::Calls),
        edge("B", "A", EdgeKind::Calls),
        edge("B", "C", EdgeKind::Calls),
    ]);
    let paths = graph.all_paths("A", "C", 10);
    assert_eq!(paths.len(), 1);
    assert_eq!(paths[0], vec!["A".to_string(), "B".to_string(), "C".to_string()]);
}

fn check_blast_radius() {
    let graph = graph_of(vec![
        edge("A", "B", EdgeKind::Calls),
        edge("B", "C", EdgeKind::Calls),
        edge("C", "A", EdgeKind::Calls),
        edge("A", "D", EdgeKind::Calls),
    ]);
    let mut radius = graph.blast_radius("A");
    radius.sort();
    let expected = vec!["B".to_string(), "C".to_string(), "D".to_string()];
    assert_eq!(radius, expected);
}

#[test]
fn graph_test_all_paths() {
    check_all_paths();
}

#[test]
fn graph_test_all_paths_cycles() {
    check_all_paths_cycles();
}

#[test]
fn graph_test_blast_radius() {
    check_blast_radius();
}

#[test]
fn ir_test_all_paths() {
    check_all_paths();
}

#[test]
fn ir_test_all_paths_cycles() {
    check_all_paths_cycles();
}

#[test]
fn ir_test_blast_radius() {
    check_blast_radius();
}

#[test]
fn test_blast_radius_ignores_other_edge_kinds() {
    let graph = graph_of(vec![
        edge("A", "B", EdgeKind::Imports),
        edge("A", "C", EdgeKind::Calls),
        edge("C", "D", EdgeKind::Contains),
    ]);
    assert_eq!(graph.blast_radius("A"), vec!["C".to_string()]);
    assert!(graph.blast_radius("Z").is_empty());
}

#[test]
fn test_all_paths_missing_target() {
    let graph = graph_of(vec![edge("A", "B", EdgeKind::Calls)]);
    assert!(graph.all_paths("A", "Z", 5).is_empty());
    assert_eq!(graph.all_paths("A", "A", 5), vec![vec!["A".to_string()]]);
}

#[test]
fn test_summarize() {
    let mut graph = CodeGraph::new(GraphMeta {
        language: "rust".to_string(),
        source_root: "/test".to_string(),
        generated_at: "now".to_string(),
        node_count: 0,
        edge_count: 0,
    });
    graph.nodes.push(Node {
        id: "src/main.rs::main".to_string(),
        label: "main".to_string(),
        kind: NodeKind::Function { is_async: false },
        file_path: "src/main.rs".to_string(),
        line: Some(1),
        is_public: true,
        parent_id: None,
    });
    graph.nodes.push(Node {
        id: "src/lib.rs::lib_func".to_string(),
        label: "lib_func".to_string(),
        kind: NodeKind::Function { is_async: false },
        file_path: "src/lib.rs".to_string(),
        line: Some(1),
        is_public: true,
        parent_id: None,
    });
    graph.edges.push(edge("src/main.rs::main", "src/lib.rs::lib_func", EdgeKind::Calls));
    graph.edges.push(edge("src/lib.rs::lib_func", "src/main.rs::main", EdgeKind::Calls));
    graph.edges.push(edge("src/main.rs::main", "src/lib.rs::lib_func", EdgeKind::Imports));
    graph.edges.push(edge("src/main.rs::main", "src/lib.rs::lib_func", EdgeKind::Imports));

    let (summary, stats) = graph.summarize();
    assert_eq!(stats.total_nodes, 2);
    assert_eq!(stats.total_edges, 4);
    assert_eq!(stats.languages, vec!["rust".to_string()]);
    assert_eq!(stats.circular_dep_count, 1);
    assert!(summary.contains("⚠️ 1 circular dependencies detected."));
    assert!(summary.contains("Most-imported modules: lib_func."));
    assert!(summary.contains("Entry points: None."));
    assert!(summary.contains("2 symbols across 2 files."));
}

#[test]
fn test_summarize_exact_text() {
    let mut graph = CodeGraph::new(meta("go"));
    for (id, label) in [("a::z", "zeta"), ("a::b", "alpha")] {
        graph.nodes.push(Node {
            id: id.to_string(),
            label: label.to_string(),
            kind: NodeKind::Function { is_async: false },
            file_path: "a".to_string(),
            line: None,
            is_public: true,
            parent_id: None,
        });
    }
    let (summary, stats) = graph.summarize();
    assert_eq!(stats.entry_points, vec!["alpha".to_string(), "zeta".to_string()]);
    assert_eq!(stats.circular_dep_count, 0);
    assert_eq!(
        summary,
        "This is a go codebase with 2 symbols across 1 files.\n\nEntry points: alpha, zeta.\nMost-imported modules: None."
    );
}

#[test]
fn test_summarize_many_entry_points() {
    let mut graph = CodeGraph::new(meta("py"));
    for i in 0..12 {
        graph.nodes.push(Node {
            id: format!("f{:02}", i),
            label: format!("f{:02}", 11 - i),
            kind: NodeKind::Function { is_async: true },
            file_path: format!("file{}", i % 3),
            line: None,
            is_public: true,
            parent_id: None,
        });
    }
    let (summary, stats) = graph.summarize();
    assert_eq!(stats.entry_points.len(), 12);
    assert_eq!(stats.entry_points[0], "f00");
    assert!(summary.contains("across 3 files."));
    assert!(summary.contains("Entry points: f00, f01, f02, f03, f04, f05, f06, f07, f08, f09, ...."));
}

#[test]
fn test_depth_truncation() {
    let mut graph = CodeGraph::new(GraphMeta {
        language: "test".to_string(),
        source_root: "/".to_string(),
        generated_at: "".to_string(),
        node_count: 3,
        edge_count: 2,
    });
    graph.nodes.push(file_node("A"));
    graph.nodes.push(file_node("B"));
    graph.nodes.push(file_node("C"));
    graph.edges.push(edge("A", "B", EdgeKind::Imports));
    graph.edges.push(edge("B", "C", EdgeKind::Imports));

    let mut pruned = graph.clone();
    prune_graph(&mut pruned, Some(1));
    assert_eq!(pruned.nodes.len(), 2);
    assert!(pruned.nodes.iter().any(|n| n.id == "A"));
    assert!(pruned.nodes.iter().any(|n| n.id == "B"));
    assert!(!pruned.nodes.iter().any(|n| n.id == "C"));
    assert_eq!(pruned.edges.len(), 1);

    let mut pruned2 = graph.clone();
    prune_graph(&mut pruned2, Some(2));
    assert_eq!(pruned2.nodes.len(), 3);
    assert_eq!(pruned2.edges.len(), 2);
}

#[test]
fn test_prune_zero_depth_and_cycle_root() {
    let mut graph = CodeGraph::new(meta("t"));
    graph.nodes.push(file_node("A"));
    graph.nodes.push(file_node("B"));
    graph.edges.push(edge("A", "B", EdgeKind::Imports));
    graph.edges.push(edge("B", "A", EdgeKind::Imports));
    let mut same = graph.clone();
    prune_graph(&mut same, Some(0));
    assert_eq!(same, graph);
    prune_graph(&mut same, None);
    assert_eq!(same, graph);
    let mut one = graph.clone();
    prune_graph(&mut one, Some(1));
    assert_eq!(one.nodes.len(), 2);
    assert_eq!(one.meta.node_count, 2);
    assert_eq!(one.meta.edge_count, 2);
}

fn tree_text(t: &CallerTree) -> String {
    let inner: Vec<String> = t.callers.iter().map(tree_text).collect();
    format!("{{\"node\":\"{}\",\"callers\":[{}]}}", t.node, inner.join(","))
}

fn check_callers_recursive() {
    let graph = graph_of(vec![
        edge("A", "B", EdgeKind::Calls),
        edge("B", "C", EdgeKind::Calls),
        edge("D", "C", EdgeKind::Calls),
    ]);
    let tree = graph.callers_recursive("C", 10);
    let json_str = tree_text(&tree);
    assert!(json_str.contains(r#""node":"A""#));
    assert!(json_str.contains(r#""node":"B""#));
    assert!(json_str.contains(r#""node":"C""#));
    assert!(json_str.contains(r#""node":"D""#));
    assert_eq!(json_str, r#"{"node":"C","callers":[{"node":"B","callers":[{"node":"A","callers":[]}]},{"node":"D","callers":[]}]}"#);
}

#[test]
fn graph_test_callers_recursive() {
    check_callers_recursive();
}

#[test]
fn ir_test_callers_recursive() {
    check_callers_recursive();
}

#[test]
fn test_callers_recursive_depth_and_cycles() {
    let graph = graph_of(vec![
        edge("A", "B", EdgeKind::Calls),
        edge("B", "A", EdgeKind::Calls),
        edge("X", "A", EdgeKind::Imports),
    ]);
    let tree = graph.callers_recursive("A", 10);
    assert_eq!(tree_text(&tree), r#"{"node":"A","callers":[{"node":"B","callers":[]}]}"#);
    let shallow = graph.callers_recursive("A", 0);
    assert_eq!(tree_text(&shallow), r#"{"node":"A","callers":[]}"#);
}
