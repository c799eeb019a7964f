use codeviz::flow::build_cfg;
use codeviz::ir::{CfgBlockKind, CfgEdgeKind};
use codeviz::syntax::{parse_bundled, SyntaxNode, PYTHON_GRAMMAR};

fn python_function(source: &str) -> SyntaxNode {
    let root = parse_bundled(PYTHON_GRAMMAR, source).unwrap();
    let mut node = root.children.into_iter().next().unwrap();
    if node.kind == "decorated_definition" {
        node = node.children.into_iter().last().unwrap();
    }
    assert_eq!(node.kind, "function_definition");
    node
}

fn edge(cfg: &codeviz::ir::ControlFlowGraph, from: &str, to: &str, kind: CfgEdgeKind) -> bool {
    cfg.cfg_edges.iter().any(|e| e.from_id == from && e.to_id == to && e.kind == kind)
}

#[test]
fn test_cfg_if_and_return() {
    let f = python_function("def f(x):\n    if x:\n        y = 1\n    return y\n");
    let cfg = build_cfg(&f, "m.py::f").unwrap();
    assert_eq!(cfg.function_id, "m.py::f");
    let ids: Vec<&str> = cfg.blocks.iter().map(|b| b.id.as_str()).collect();
    assert_eq!(ids, vec!["m.py::f_b0", "m.py::f_b1", "m.py::f_b2", "m.py::f_b3", "m.py::f_b4", "m.py::f_b5", "m.py::f_b6"]);
    assert_eq!(cfg.blocks[0].kind, CfgBlockKind::Entry);
    assert_eq!(cfg.blocks[0].line, Some(1));
    assert_eq!(cfg.blocks[1].kind, CfgBlockKind::Exit);
    assert_eq!(cfg.blocks[1].line, Some(4));
    assert_eq!(cfg.blocks[2].kind, CfgBlockKind::Condition);
    assert_eq!(cfg.blocks[2].label, "x");
    assert_eq!(cfg.blocks[3].label, "merge");
    assert_eq!(cfg.blocks[3].line, None);
    assert_eq!(cfg.blocks[4].label, "then");
    assert_eq!(cfg.blocks[5].label, "y = 1");
    assert_eq!(cfg.blocks[5].line, Some(3));
    assert_eq!(cfg.blocks[6].label, "return y");
    assert_eq!(cfg.cfg_edges.len(), 8);
    assert!(edge(&cfg, "m.py::f_b0", "m.py::f_b2", CfgEdgeKind::Normal));
    assert!(edge(&cfg, "m.py::f_b2", "m.py::f_b4", CfgEdgeKind::TrueBranch));
    assert!(edge(&cfg, "m.py::f_b2", "m.py::f_b3", CfgEdgeKind::FalseBranch));
    assert!(edge(&cfg, "m.py::f_b5", "m.py::f_b3", CfgEdgeKind::Normal));
    assert!(edge(&cfg, "m.py::f_b6", "m.py::f_b1", CfgEdgeKind::Normal));
    let t = cfg.cfg_edges.iter().find(|e| e.kind == CfgEdgeKind::TrueBranch).unwrap();
    assert_eq!(t.label.as_deref(), Some("✓ true"));
    let f = cfg.cfg_edges.iter().find(|e| e.kind == CfgEdgeKind::FalseBranch).unwrap();
    assert_eq!(f.label.as_deref(), Some("✗ false"));
}

#[test]
fn test_cfg_loop_await_break() {
    let f = python_function("async def g():\n    while ok:\n        await h()\n        break\n");
    let cfg = build_cfg(&f, "m.py::g").unwrap();
    let kinds: Vec<CfgBlockKind> = cfg.blocks.iter().map(|b| b.kind).collect();
    assert_eq!(kinds, vec![
        CfgBlockKind::Entry, CfgBlockKind::Exit, CfgBlockKind::LoopHeader, CfgBlockKind::Block,
        CfgBlockKind::LoopBody, CfgBlockKind::AwaitPoint, CfgBlockKind::Block, CfgBlockKind::Block,
    ]);
    assert_eq!(cfg.blocks[2].label, "while ok");
    assert_eq!(cfg.blocks[3].label, "loop exit");
    assert_eq!(cfg.blocks[5].label, "await h()");
    assert_eq!(cfg.blocks[7].label, "break");
    assert!(edge(&cfg, "m.py::g_b4", "m.py::g_b5", CfgEdgeKind::AsyncEdge));
    assert!(edge(&cfg, "m.py::g_b7", "m.py::g_b3", CfgEdgeKind::Normal));
    assert!(edge(&cfg, "m.py::g_b7", "m.py::g_b2", CfgEdgeKind::LoopBack));
    assert!(edge(&cfg, "m.py::g_b2", "m.py::g_b3", CfgEdgeKind::FalseBranch));
    assert!(edge(&cfg, "m.py::g_b3", "m.py::g_b1", CfgEdgeKind::Normal));
}

#[test]
fn test_cfg_try_and_long_label() {
    let src = "def h():\n    try:\n        value = compute_something_long(argument_one, argument_two)\n    except ValueError as e:\n        raise\n    finally:\n        pass\n";
    let cfg = build_cfg(&python_function(src), "h").unwrap();
    let labels: Vec<&str> = cfg.blocks.iter().map(|b| b.label.as_str()).collect();
    // The grammar holds handlers and the finally body under no field, so neither is walked.
    assert_eq!(labels, vec!["Entry", "Exit", "try", "try merge", "value = compute_something_l...", "finally"]);
    assert!(!cfg.blocks.iter().any(|b| b.kind == CfgBlockKind::CatchBlock));
    assert!(edge(&cfg, "h_b3", "h_b5", CfgEdgeKind::FinallyEdge));
    assert!(edge(&cfg, "h_b5", "h_b1", CfgEdgeKind::Normal));
}

#[test]
fn test_cfg_raise_and_comment() {
    let cfg = build_cfg(&python_function("def r():\n    # note\n    raise ValueError('x')\n"), "r").unwrap();
    assert_eq!(cfg.blocks.len(), 3);
    assert_eq!(cfg.blocks[2].kind, CfgBlockKind::ThrowPoint);
    assert_eq!(cfg.blocks[2].label, "raise ValueError('x')");
    assert!(edge(&cfg, "r_b0", "r_b2", CfgEdgeKind::Normal));
    assert!(edge(&cfg, "r_b2", "r_b1", CfgEdgeKind::ExceptionEdge));
}

#[test]
fn test_cfg_without_body_joins_entry_and_exit() {
    let node = SyntaxNode {
        kind: "function_definition".to_string(),
        field: None,
        text: None,
        row: 4,
        end_row: 6,
        has_error: false,
        children: Vec::new(),
    };
    let cfg = build_cfg(&node, "f").unwrap();
    assert_eq!(cfg.blocks.len(), 2);
    assert_eq!(cfg.blocks[0].line, Some(5));
    assert_eq!(cfg.blocks[1].line, Some(7));
    assert_eq!(cfg.cfg_edges.len(), 1);
    assert_eq!(cfg.cfg_edges[0].from_id, "f_b0");
    assert_eq!(cfg.cfg_edges[0].to_id, "f_b1");
}

#[test]
fn every_cfg_edge_joins_two_blocks_numbered_in_order() {
    let f = python_function(
        "def f(xs):\n    for x in xs:\n        if x:\n            continue\n        try:\n            g(x)\n        except E as e:\n            raise\n        finally:\n            h()\n    return 1\n",
    );
    let cfg = build_cfg(&f, "m.py::f").unwrap();
    for (k, b) in cfg.blocks.iter().enumerate() {
        assert_eq!(b.id, format!("m.py::f_b{}", k));
    }
    assert!(cfg.cfg_edges.len() > 10);
    for e in &cfg.cfg_edges {
        assert!(cfg.blocks.iter().any(|b| b.id == e.from_id), "{}", e.from_id);
        assert!(cfg.blocks.iter().any(|b| b.id == e.to_id), "{}", e.to_id);
    }
}
