use codeviz::ir::{CodeGraph, Edge, EdgeKind, GraphMeta, Node, NodeKind};
use codeviz::queries::{callees_of, callers_of, entry_points, explain_path, find_node, shortest_path_ids, truncate_graph};

fn graph(nodes: &[(&str, NodeKind)], edges: &[(&str, &str, EdgeKind)]) -> CodeGraph {
    let mut g = CodeGraph::new(GraphMeta {
        language: "dummy".to_string(),
        source_root: "/".to_string(),
        generated_at: String::new(),
        node_count: nodes.len(),
        edge_count: edges.len(),
    });
    for (id, kind) in nodes {
        g.nodes.push(Node {
            id: id.to_string(),
            label: id.rsplit("::").next().unwrap().to_string(),
            kind: *kind,
            file_path: "test.dummy".to_string(),
            line: None,
            is_public: true,
            parent_id: None,
        });
    }
    for (from, to, kind) in edges {
        g.edges.push(Edge { from_id: from.to_string(), to_id: to.to_string(), kind: *kind });
    }
    g
}

const F: NodeKind = NodeKind::Function { is_async: false };

fn dummy_graph() -> CodeGraph {
    graph(&[("test.dummy::A", F), ("test.dummy::B", F)], &[("test.dummy::A", "test.dummy::B", EdgeKind::Calls)])
}

#[test]
fn test_callers_callees_and_entry_points() {
    let g = dummy_graph();
    let callers = callers_of(&g, "B");
    assert_eq!(callers.len(), 1);
    assert_eq!(callers[0].label, "A");
    let callees = callees_of(&g, "A");
    assert_eq!(callees.len(), 1);
    assert_eq!(callees[0].label, "B");
    let entries = entry_points(&g);
    assert_eq!(entries.len(), 1);
    assert_eq!(entries[0].label, "A");
    assert!(callers_of(&g, "Nope").is_empty());
    assert_eq!(find_node(&g, "dummy::B"), Some(1));
}

#[test]
fn test_explain_path_shortest() {
    let g = graph(
        &[("a", F), ("b", F), ("c", F), ("d", F), ("e", F)],
        &[
            ("a", "b", EdgeKind::Calls),
            ("b", "c", EdgeKind::Imports),
            ("c", "d", EdgeKind::Calls),
            ("a", "c", EdgeKind::Calls),
            ("d", "a", EdgeKind::Calls),
        ],
    );
    let path = explain_path(&g, "a", "d").unwrap();
    let ids: Vec<&str> = path.iter().map(|n| n.id.as_str()).collect();
    assert_eq!(ids, vec!["a", "c", "d"]);
    assert!(explain_path(&g, "a", "e").is_none());
    assert!(explain_path(&g, "zzz", "d").is_none());
    let same = explain_path(&g, "b", "b").unwrap();
    assert_eq!(same.len(), 1);
    let ids = shortest_path_ids(&g.edges, &"d".to_string(), &"c".to_string()).unwrap();
    assert_eq!(ids, vec!["d", "a", "c"]);
}

#[test]
fn test_explain_path_ties_follow_edge_order() {
    let g = graph(
        &[("s", F), ("x", F), ("y", F), ("t", F)],
        &[("s", "y", EdgeKind::Calls), ("s", "x", EdgeKind::Calls), ("x", "t", EdgeKind::Calls), ("y", "t", EdgeKind::Calls)],
    );
    let ids: Vec<String> = explain_path(&g, "s", "t").unwrap().into_iter().map(|n| n.id).collect();
    assert_eq!(ids, vec!["s", "y", "t"]);
}

#[test]
fn test_truncate_graph() {
    let mut g = graph(&[("a", F), ("b", F), ("c", F)], &[("a", "b", EdgeKind::Calls), ("b", "c", EdgeKind::Calls)]);
    truncate_graph(&mut g, 2);
    assert_eq!(g.nodes.len(), 2);
    assert_eq!(g.edges.len(), 1);
    assert_eq!(g.edges[0].to_id, "b");
    assert_eq!(g.meta.node_count, 2);
    assert_eq!(g.meta.edge_count, 1);
    truncate_graph(&mut g, 5);
    assert_eq!(g.nodes.len(), 2);
}

#[test]
fn test_explain_path_follows_layer_order_before_edge_order() {
    let g = graph(
        &[("s", F), ("x", F), ("y", F), ("p", F), ("q", F), ("t", F)],
        &[
            ("s", "y", EdgeKind::Calls),
            ("s", "x", EdgeKind::Calls),
            ("x", "p", EdgeKind::Calls),
            ("y", "q", EdgeKind::Calls),
            ("p", "t", EdgeKind::Calls),
            ("q", "t", EdgeKind::Calls),
        ],
    );
    let ids: Vec<String> = explain_path(&g, "s", "t").unwrap().into_iter().map(|n| n.id).collect();
    assert_eq!(ids, vec!["s", "y", "q", "t"]);
}

#[test]
fn entry_points_are_all_nodes_nothing_calls() {
    let g = graph(
        &[("main.py", NodeKind::File), ("a", F), ("b", F)],
        &[("a", "b", EdgeKind::Calls), ("main.py", "a", EdgeKind::Contains)],
    );
    let ids: Vec<String> = entry_points(&g).into_iter().map(|n| n.id).collect();
    assert_eq!(ids, vec!["main.py", "a"]);
}
