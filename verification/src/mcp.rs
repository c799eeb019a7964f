//! The decisions of the tool server: which JSON-RPC method and tool a request names,
//! whether its arguments hold what the tool needs, and the errors it is answered with.
//! Reading and writing JSON is left to the caller, who hands over what the request holds.

use vstd::prelude::*;
use crate::ir::{CodeGraph, Edge, EdgeKind, GraphMeta, Node, NodeKind};
use crate::text::{push_str, same_text, to_owned_string};

verus! {

/// A JSON-RPC error: its code and message.
pub struct JsonRpcError {
    pub code: i32,
    pub message: String,
}

/// The error for a tool that does not exist.
pub open spec fn unknown_tool_error(name: Seq<char>) -> (i32, Seq<char>) {
    (-32601i32, "Unknown tool: "@ + name)
}

/// The error for missing or malformed parameters.
pub open spec fn invalid_params_error(details: Seq<char>) -> (i32, Seq<char>) {
    (-32602i32, "Invalid params: "@ + details)
}

/// The error for a failure inside the server.
pub open spec fn internal_error_error(details: Seq<char>) -> (i32, Seq<char>) {
    (-32603i32, "Internal error: "@ + details)
}

impl JsonRpcError {
    /// The error as a code and a message.
    pub open spec fn pair(&self) -> (i32, Seq<char>) {
        (self.code, self.message@)
    }

    /// Creates a new error for an unknown tool.
    pub fn unknown_tool(tool_name: &str) -> (e: Self)
        ensures
            e.pair() == unknown_tool_error(tool_name@),
    {
        let mut message = to_owned_string("Unknown tool: ");
        push_str(&mut message, tool_name);
        JsonRpcError { code: -32601, message }
    }

    /// Creates a new error for invalid parameters.
    pub fn invalid_params(details: &str) -> (e: Self)
        ensures
            e.pair() == invalid_params_error(details@),
    {
        let mut message = to_owned_string("Invalid params: ");
        push_str(&mut message, details);
        JsonRpcError { code: -32602, message }
    }

    /// Creates a new error for an internal server error.
    pub fn internal_error(details: &str) -> (e: Self)
        ensures
            e.pair() == internal_error_error(details@),
    {
        let mut message = to_owned_string("Internal error: ");
        push_str(&mut message, details);
        JsonRpcError { code: -32603, message }
    }
}

/// The tools that the server offers.
#[derive(Debug, Clone, Copy, PartialEq, Eq, Structural)]
pub enum ToolKind {
    ModuleGraph,
    Callers,
    Callees,
    ClassHierarchy,
    EntryPoints,
    ExplainPath,
}

/// What a `tools/call` request's parameters hold, as far as the server reads them: the
/// tool's name where it is a string, whether the arguments are an object, and its keys.
pub struct ToolCall {
    pub name: Option<String>,
    pub args_is_object: bool,
    pub arg_keys: Vec<String>,
}

/// The tool that a name selects.
pub open spec fn tool_of(name: Seq<char>) -> Option<ToolKind> {
    if name == "get_module_graph"@ {
        Some(ToolKind::ModuleGraph)
    } else if name == "get_callers"@ {
        Some(ToolKind::Callers)
    } else if name == "get_callees"@ {
        Some(ToolKind::Callees)
    } else if name == "get_class_hierarchy"@ {
        Some(ToolKind::ClassHierarchy)
    } else if name == "find_entry_points"@ {
        Some(ToolKind::EntryPoints)
    } else if name == "explain_path"@ {
        Some(ToolKind::ExplainPath)
    } else {
        None
    }
}

/// The arguments a tool needs.
pub open spec fn required_args(k: ToolKind) -> Seq<Seq<char>> {
    match k {
        ToolKind::ModuleGraph => seq!["path"@],
        ToolKind::Callers => seq!["fn_name"@, "path"@],
        ToolKind::Callees => seq!["fn_name"@, "path"@],
        ToolKind::ClassHierarchy => seq!["path"@],
        ToolKind::EntryPoints => seq!["path"@],
        ToolKind::ExplainPath => seq!["from"@, "to"@, "path"@],
    }
}

/// What the server says when a tool's arguments are incomplete.
pub open spec fn missing_args_message(k: ToolKind) -> Seq<char> {
    match k {
        ToolKind::Callers => "Missing fn_name or path"@,
        ToolKind::Callees => "Missing fn_name or path"@,
        ToolKind::ExplainPath => "Missing from, to, or path"@,
        _ => "Missing path"@,
    }
}

/// How a `tools/call` request is answered: the tool to run, or the error.
pub open spec fn call_outcome(params: Option<(Option<Seq<char>>, bool, Seq<Seq<char>>)>) -> Result<ToolKind, (i32, Seq<char>)> {
    match params {
        None => Err(invalid_params_error("Missing params"@)),
        Some((name, is_object, keys)) => match name {
            None => Err(invalid_params_error("Missing tool name"@)),
            Some(n) => match tool_of(n) {
                Some(k) => if is_object && (forall|i: int| 0 <= i < required_args(k).len() ==> keys.contains(#[trigger] required_args(k)[i])) {
                    Ok(k)
                } else {
                    Err(invalid_params_error(missing_args_message(k)))
                },
                None => Err(unknown_tool_error(n)),
            },
        },
    }
}

impl ToolCall {
    /// What the parameters hold, as plain values.
    pub open spec fn view_parts(&self) -> (Option<Seq<char>>, bool, Seq<Seq<char>>) {
        (match self.name { Some(n) => Some(n@), None => None }, self.args_is_object, self.arg_keys.deep_view())
    }
}

fn tool_of_exec(name: &String) -> (r: Option<ToolKind>)
    ensures
        r == tool_of(name@),
{
    if same_text(name, &to_owned_string("get_module_graph")) {
        Some(ToolKind::ModuleGraph)
    } else if same_text(name, &to_owned_string("get_callers")) {
        Some(ToolKind::Callers)
    } else if same_text(name, &to_owned_string("get_callees")) {
        Some(ToolKind::Callees)
    } else if same_text(name, &to_owned_string("get_class_hierarchy")) {
        Some(ToolKind::ClassHierarchy)
    } else if same_text(name, &to_owned_string("find_entry_points")) {
        Some(ToolKind::EntryPoints)
    } else if same_text(name, &to_owned_string("explain_path")) {
        Some(ToolKind::ExplainPath)
    } else {
        None
    }
}

fn has_key(keys: &Vec<String>, key: &str) -> (r: bool)
    ensures
        r == keys.deep_view().contains(key@),
{
    let k = to_owned_string(key);
    let mut i: usize = 0;
    while i < keys.len()
        invariant
            i <= keys@.len(),
            k@ == key@,
            forall|j: int| 0 <= j < i ==> #[trigger] keys.deep_view()[j] != key@,
        decreases keys@.len() - i,
    {
        if same_text(&keys[i], &k) {
            assert(keys.deep_view()[i as int] == key@);
            return true;
        }
        i = i + 1;
    }
    false
}

fn args_present(k: ToolKind, keys: &Vec<String>) -> (r: bool)
    ensures
        r == (forall|i: int| 0 <= i < required_args(k).len() ==> keys.deep_view().contains(#[trigger] required_args(k)[i])),
{
    match k {
        ToolKind::Callers | ToolKind::Callees => {
            let r = has_key(keys, "fn_name") && has_key(keys, "path");
            assert(required_args(k)[0] == "fn_name"@ && required_args(k)[1] == "path"@);
            r
        },
        ToolKind::ExplainPath => {
            let r = has_key(keys, "from") && has_key(keys, "to") && has_key(keys, "path");
            assert(required_args(k)[0] == "from"@ && required_args(k)[1] == "to"@ && required_args(k)[2] == "path"@);
            r
        },
        _ => {
            let r = has_key(keys, "path");
            assert(required_args(k)[0] == "path"@);
            r
        },
    }
}

fn missing_args_error(k: ToolKind) -> (e: JsonRpcError)
    ensures
        e.pair() == invalid_params_error(missing_args_message(k)),
{
    match k {
        ToolKind::Callers | ToolKind::Callees => JsonRpcError::invalid_params("Missing fn_name or path"),
        ToolKind::ExplainPath => JsonRpcError::invalid_params("Missing from, to, or path"),
        _ => JsonRpcError::invalid_params("Missing path"),
    }
}

/// Decides a `tools/call` request: the tool to run where the parameters name one and its
/// arguments are an object with the keys it needs; else the error to answer with.
pub fn handle_tools_call(params: Option<ToolCall>) -> (r: Result<ToolKind, JsonRpcError>)
    ensures
        match r {
            Ok(k) => call_outcome(match params { Some(p) => Some(p.view_parts()), None => None }) == Ok::<ToolKind, (i32, Seq<char>)>(k),
            Err(e) => call_outcome(match params { Some(p) => Some(p.view_parts()), None => None }) == Err::<ToolKind, (i32, Seq<char>)>(e.pair()),
        },
{
    match params {
        None => Err(JsonRpcError::invalid_params("Missing params")),
        Some(p) => match &p.name {
            None => Err(JsonRpcError::invalid_params("Missing tool name")),
            Some(n) => match tool_of_exec(n) {
                Some(k) => {
                    if p.args_is_object && args_present(k, &p.arg_keys) {
                        Ok(k)
                    } else {
                        Err(missing_args_error(k))
                    }
                },
                None => Err(JsonRpcError::unknown_tool(n.as_str())),
            },
        },
    }
}

/// How a request is answered, by its method.
#[derive(Debug, Clone, Copy, PartialEq, Eq, Structural)]
pub enum MethodKind {
    ToolsList,
    ToolsCall,
    NotFound,
}

/// The method that a request's method name selects.
pub open spec fn method_of(method: Seq<char>) -> MethodKind {
    if method == "tools/list"@ {
        MethodKind::ToolsList
    } else if method == "tools/call"@ {
        MethodKind::ToolsCall
    } else {
        MethodKind::NotFound
    }
}

/// Selects the handler of a request by its method: `tools/list`, `tools/call`, or none
/// (answered with code -32601 and `Method not found`, see `method_not_found`).
pub fn route_method(method: &str) -> (r: MethodKind)
    ensures
        r == method_of(method@),
{
    let m = to_owned_string(method);
    if same_text(&m, &to_owned_string("tools/list")) {
        MethodKind::ToolsList
    } else if same_text(&m, &to_owned_string("tools/call")) {
        MethodKind::ToolsCall
    } else {
        MethodKind::NotFound
    }
}

/// The error for a method that does not exist.
pub fn method_not_found() -> (e: JsonRpcError)
    ensures
        e.pair() == (-32601i32, "Method not found"@),
{
    JsonRpcError { code: -32601, message: to_owned_string("Method not found") }
}

/// An argument of a tool: its name and its JSON type.
pub struct ToolArg {
    pub name: String,
    pub json_type: String,
}

/// One tool's definition: its name, what it does, its arguments, and those it needs.
pub struct ToolDefinition {
    pub name: String,
    pub description: String,
    pub args: Vec<ToolArg>,
    pub required: Vec<String>,
}

/// A tool's definition as plain values.
pub open spec fn def_view(d: ToolDefinition) -> (Seq<char>, Seq<char>, Seq<(Seq<char>, Seq<char>)>, Seq<Seq<char>>) {
    (d.name@, d.description@, d.args@.map_values(|a: ToolArg| (a.name@, a.json_type@)), d.required.deep_view())
}

/// The tools that the server lists, in order.
pub open spec fn tool_catalog() -> Seq<(Seq<char>, Seq<char>, Seq<(Seq<char>, Seq<char>)>, Seq<Seq<char>>)> {
    seq![
        ("get_module_graph"@, "Returns the full module dependency graph for a directory."@,
            seq![("path"@, "string"@), ("max_nodes"@, "number"@)], seq!["path"@]),
        ("get_callers"@, "Returns all nodes that call a given function."@,
            seq![("fn_name"@, "string"@), ("path"@, "string"@)], seq!["fn_name"@, "path"@]),
        ("get_callees"@, "Returns all nodes called by a given function."@,
            seq![("fn_name"@, "string"@), ("path"@, "string"@)], seq!["fn_name"@, "path"@]),
        ("get_class_hierarchy"@, "Returns the full inheritance tree as a Mermaid classDiagram."@,
            seq![("path"@, "string"@)], seq!["path"@]),
        ("find_entry_points"@, "Returns all nodes with no incoming Calls edges."@,
            seq![("path"@, "string"@)], seq!["path"@]),
        ("explain_path"@, "Returns the shortest dependency path between two named nodes."@,
            seq![("from"@, "string"@), ("to"@, "string"@), ("path"@, "string"@)], seq!["from"@, "to"@, "path"@]),
    ]
}

fn arg(name: &str, json_type: &str) -> (a: ToolArg)
    ensures
        a.name@ == name@,
        a.json_type@ == json_type@,
{
    ToolArg { name: to_owned_string(name), json_type: to_owned_string(json_type) }
}

fn define(name: &str, description: &str, args: Vec<ToolArg>, required: Vec<String>) -> (d: ToolDefinition)
    ensures
        def_view(d) == (name@, description@, args@.map_values(|a: ToolArg| (a.name@, a.json_type@)), required.deep_view()),
{
    ToolDefinition { name: to_owned_string(name), description: to_owned_string(description), args, required }
}

/// The definitions of the tools that the server offers (what `tools/list` answers).
pub fn tool_definitions() -> (r: Vec<ToolDefinition>)
    ensures
        r@.map_values(|d: ToolDefinition| def_view(d)) == tool_catalog(),
{
    let mut r: Vec<ToolDefinition> = Vec::new();
    let d0 = define("get_module_graph", "Returns the full module dependency graph for a directory.",
        vec![arg("path", "string"), arg("max_nodes", "number")], vec![to_owned_string("path")]);
    let d1 = define("get_callers", "Returns all nodes that call a given function.",
        vec![arg("fn_name", "string"), arg("path", "string")], vec![to_owned_string("fn_name"), to_owned_string("path")]);
    let d2 = define("get_callees", "Returns all nodes called by a given function.",
        vec![arg("fn_name", "string"), arg("path", "string")], vec![to_owned_string("fn_name"), to_owned_string("path")]);
    let d3 = define("get_class_hierarchy", "Returns the full inheritance tree as a Mermaid classDiagram.",
        vec![arg("path", "string")], vec![to_owned_string("path")]);
    let d4 = define("find_entry_points", "Returns all nodes with no incoming Calls edges.",
        vec![arg("path", "string")], vec![to_owned_string("path")]);
    let d5 = define("explain_path", "Returns the shortest dependency path between two named nodes.",
        vec![arg("from", "string"), arg("to", "string"), arg("path", "string")],
        vec![to_owned_string("from"), to_owned_string("to"), to_owned_string("path")]);
    let ghost c = tool_catalog();
    assert(def_view(d0) == c[0]);
    assert(def_view(d1) == c[1]);
    assert(def_view(d2) == c[2]);
    assert(def_view(d3) == c[3]);
    assert(def_view(d4) == c[4]);
    assert(def_view(d5) == c[5]);
    r.push(d0);
    r.push(d1);
    r.push(d2);
    r.push(d3);
    r.push(d4);
    r.push(d5);
    assert(r@.map_values(|d: ToolDefinition| def_view(d)) =~= c);
    r
}

fn mock_node(id: &str) -> (n: Node)
    ensures
        n.id@ == id@,
        n.label@ == id@,
        n.kind == (NodeKind::Function { is_async: false }),
        n.file_path@ == "a.rs"@,
        n.line is None,
        n.is_public,
        n.parent_id is None,
{
    Node {
        id: to_owned_string(id),
        label: to_owned_string(id),
        kind: NodeKind::Function { is_async: false },
        file_path: to_owned_string("a.rs"),
        line: None,
        is_public: true,
        parent_id: None,
    }
}

/// The fixed graph that the tools answer with: functions `a` and `b` of `a.rs`, and a call
/// from `a` to `b`.
pub fn mock_graph() -> (g: CodeGraph)
    ensures
        g.nodes@.len() == 2,
        g.nodes@[0].id@ == "a"@ && g.nodes@[0].label@ == "a"@,
        g.nodes@[1].id@ == "b"@ && g.nodes@[1].label@ == "b"@,
        forall|i: int| 0 <= i < 2 ==> {
            &&& (#[trigger] g.nodes@[i]).kind == (NodeKind::Function { is_async: false })
            &&& g.nodes@[i].file_path@ == "a.rs"@
            &&& g.nodes@[i].line is None
            &&& g.nodes@[i].is_public
            &&& g.nodes@[i].parent_id is None
        },
        g.edges@.len() == 1,
        g.edges@[0].from_id@ == "a"@ && g.edges@[0].to_id@ == "b"@ && g.edges@[0].kind == EdgeKind::Calls,
        g.control_flow@.len() == 0,
        g.meta.language@ == "mock"@,
        g.meta.source_root@ == "/"@,
        g.meta.generated_at@ == ""@,
        g.meta.node_count == 2,
        g.meta.edge_count == 1,
{
    let meta = GraphMeta {
        language: to_owned_string("mock"),
        source_root: to_owned_string("/"),
        generated_at: to_owned_string(""),
        node_count: 2,
        edge_count: 1,
    };
    let mut g = CodeGraph::new(meta);
    g.nodes.push(mock_node("a"));
    g.nodes.push(mock_node("b"));
    g.edges.push(Edge { from_id: to_owned_string("a"), to_id: to_owned_string("b"), kind: EdgeKind::Calls });
    g
}

} // verus!
