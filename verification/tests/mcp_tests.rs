use codeviz::ir::EdgeKind;
use codeviz::mcp::{handle_tools_call, method_not_found, mock_graph, route_method, tool_definitions, JsonRpcError, MethodKind, ToolCall, ToolKind};

fn call(name: &str, keys: &[&str]) -> Option<ToolCall> {
    Some(ToolCall {
        name: Some(name.to_string()),
        args_is_object: true,
        arg_keys: keys.iter().map(|k| k.to_string()).collect(),
    })
}

#[test]
fn mcp_mock_test_test_unknown_tool() {
    assert_eq!(route_method("tools/call"), MethodKind::ToolsCall);
    let err = handle_tools_call(call("fake_tool", &[])).unwrap_err();
    assert_eq!(err.code, -32601);
    assert_eq!(err.message, "Unknown tool: fake_tool");
}

#[test]
fn test_missing_params() {
    let err = handle_tools_call(None).unwrap_err();
    assert_eq!(err.code, -32602);
    assert_eq!(err.message, "Invalid params: Missing params");
}

#[test]
fn test_tools_list() {
    assert_eq!(route_method("tools/list"), MethodKind::ToolsList);
    let tools = tool_definitions();
    assert_eq!(tools.len(), 6);
    assert_eq!(tools[0].name, "get_module_graph");
    assert_eq!(tools[0].args.len(), 2);
    assert_eq!(tools[0].args[1].name, "max_nodes");
    assert_eq!(tools[0].args[1].json_type, "number");
    assert_eq!(tools[5].required, vec!["from", "to", "path"]);
}

#[test]
fn test_invalid_tool_params() {
    let err = handle_tools_call(call("get_module_graph", &[])).unwrap_err();
    assert_eq!(err.code, -32602);
    assert_eq!(err.message, "Invalid params: Missing path");
}

#[test]
fn test_all_6_tools_success() {
    let tools = vec![
        ("get_module_graph", vec!["path"], ToolKind::ModuleGraph),
        ("get_callers", vec!["fn_name", "path"], ToolKind::Callers),
        ("get_callees", vec!["fn_name", "path"], ToolKind::Callees),
        ("get_class_hierarchy", vec!["path"], ToolKind::ClassHierarchy),
        ("find_entry_points", vec!["path"], ToolKind::EntryPoints),
        ("explain_path", vec!["from", "to", "path"], ToolKind::ExplainPath),
    ];
    for (tool, keys, kind) in tools {
        let r = handle_tools_call(call(tool, &keys));
        assert_eq!(r.ok(), Some(kind), "Tool {} failed", tool);
    }
}

#[test]
fn test_tool_call_edge_cases() {
    let no_name = Some(ToolCall { name: None, args_is_object: true, arg_keys: vec![] });
    assert_eq!(handle_tools_call(no_name).unwrap_err().message, "Invalid params: Missing tool name");
    let not_object = Some(ToolCall { name: Some("get_callers".to_string()), args_is_object: false, arg_keys: vec![] });
    assert_eq!(handle_tools_call(not_object).unwrap_err().message, "Invalid params: Missing fn_name or path");
    let err = handle_tools_call(call("explain_path", &["from", "path"])).unwrap_err();
    assert_eq!(err.message, "Invalid params: Missing from, to, or path");
    assert_eq!(route_method("unknown/method"), MethodKind::NotFound);
    let e = method_not_found();
    assert_eq!(e.code, -32601);
    assert_eq!(e.message, "Method not found");
    let e = JsonRpcError::internal_error("boom");
    assert_eq!(e.code, -32603);
    assert_eq!(e.message, "Internal error: boom");
    let g = mock_graph();
    assert_eq!(g.nodes.len(), 2);
    assert_eq!(g.edges[0].kind, EdgeKind::Calls);
    assert_eq!(g.meta.language, "mock");
}

#[test]
fn test_unknown_method() {
    assert_eq!(route_method("unknown/method"), MethodKind::NotFound);
    let err = method_not_found();
    assert_eq!(err.code, -32601);
}

#[test]
fn server_test_unknown_tool() {
    assert_eq!(route_method("tools/call"), MethodKind::ToolsCall);
    let err = handle_tools_call(call("unknown_tool", &[])).unwrap_err();
    assert_eq!(err.code, -32601);
}

#[test]
fn test_list_tools() {
    let tools = tool_definitions();
    assert_eq!(tools.len(), 6);
    assert!(tools.iter().any(|t| t.name == "get_module_graph"));
}
