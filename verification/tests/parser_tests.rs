use vstd::seq::Seq;
use codeviz::gomod::resolve_import_path;
use codeviz::go::GoParser;
use codeviz::ir::{CodeGraph, EdgeKind, GraphMeta, Node, NodeKind};
use codeviz::parser::{LanguageParser, LanguageRegistry, ParseError};
use codeviz::path_utils::normalize_path;
use codeviz::python::PythonParser;
use codeviz::java::JavaParser;
use codeviz::kotlin::KotlinParser;
use codeviz::rust::RustLangParser;
use codeviz::typescript::{TypeScriptParser, is_tsx_path};

struct MockParser {
    name: &'static str,
    extensions: Vec<&'static str>,
}

impl LanguageParser for MockParser {
    fn claimed_extensions(&self) -> Seq<Seq<char>> {
        unreachable!()
    }

    fn parses_to(&self, _source: Seq<char>, _file_path: Seq<char>, _r: Result<CodeGraph, ParseError>) -> bool {
        unreachable!()
    }

    fn language_name(&self) -> &str {
        self.name
    }

    fn supported_extensions(&self) -> &[&str] {
        &self.extensions
    }

    fn parse(&self, _source: &str, file_path: &str) -> Result<CodeGraph, ParseError> {
        let meta = GraphMeta {
            language: self.name.to_string(),
            source_root: "/".to_string(),
            generated_at: "2023-01-01T00:00:00Z".to_string(),
            node_count: 1,
            edge_count: 0,
        };
        let mut graph = CodeGraph::new(meta);
        graph.nodes.push(Node {
            id: format!("{}::mock", file_path),
            label: "mock".to_string(),
            kind: NodeKind::File,
            file_path: file_path.to_string(),
            line: None,
            is_public: true,
            parent_id: None,
        });
        Ok(graph)
    }
}

#[test]
fn test_node_ids_use_forward_slashes() {
    let normalized = normalize_path("src\\lib\\utils.py");
    assert!(!normalized.contains('\\'), "Node paths must not contain backslashes");
    assert_eq!(normalized, "src/lib/utils.py");
}

#[test]
fn test_parse_file_dispatches_correctly() {
    let mut registry = LanguageRegistry::new();
    registry.register(Box::new(MockParser { name: "python", extensions: vec!["py"] }));
    registry.register(Box::new(MockParser { name: "typescript", extensions: vec!["ts", "tsx"] }));
    let py_graph = registry.parse_file("test.py", "source").unwrap();
    assert_eq!(py_graph.meta.language, "python");
    assert_eq!(py_graph.nodes[0].id, "test.py::mock");
    let ts_graph = registry.parse_file("app.tsx", "source").unwrap();
    assert_eq!(ts_graph.meta.language, "typescript");
}

#[test]
fn test_parse_file_unknown_extension() {
    let registry = LanguageRegistry::new();
    let result = registry.parse_file("test.unknown", "source");
    assert!(result.is_err());
    let err = result.unwrap_err();
    assert_eq!(err.message, "No parser for extension: unknown");
    assert_eq!(err.file_path, "test.unknown");
}

#[test]
fn test_parser_precedence() {
    let mut registry = LanguageRegistry::new();
    registry.register(Box::new(MockParser { name: "old_js", extensions: vec!["js"] }));
    registry.register(Box::new(MockParser { name: "new_js", extensions: vec!["js"] }));
    let graph = registry.parse_file("script.js", "source").unwrap();
    assert_eq!(graph.meta.language, "new_js");
}

#[test]
fn test_integration_path_normalization() {
    let mut registry = LanguageRegistry::new();
    registry.register(Box::new(MockParser { name: "python", extensions: vec!["py"] }));
    let graph = registry.parse_file("src\\auth\\middleware.py", "source").unwrap();
    assert_eq!(graph.nodes[0].file_path, "src/auth/middleware.py");
    assert_eq!(graph.nodes[0].id, "src/auth/middleware.py::mock");
}

#[test]
fn test_extension_edge_cases() {
    let mut registry = LanguageRegistry::new();
    registry.register(Box::new(MockParser { name: "m", extensions: vec!["rs", ""] }));
    assert!(registry.find_parser("rs").is_some());
    assert!(registry.find_parser("py").is_none());
    assert_eq!(registry.parse_file(".hidden", "").unwrap().meta.language, "m");
    assert_eq!(registry.parse_file("dir.d/file", "").unwrap().meta.language, "m");
    assert_eq!(registry.parse_file("a/b.rs/.", "").unwrap().meta.language, "m");
    let empty = LanguageRegistry::new();
    assert_eq!(empty.parse_file("x.tar.gz", "").unwrap_err().message, "No parser for extension: gz");
    assert_eq!(empty.parse_file("x/..", "").unwrap_err().message, "No parser for extension: ");
}

#[test]
fn test_parse_go_snippet() {
    let snippet = r#"
package main

import (
    "fmt"
    "myapp/utils"
)

type Runner interface { Run() }
type Dog struct { Animal }
func (d *Dog) Run() {}
func main() {}
"#;
    let parser = GoParser::new();
    let graph = parser.parse(snippet, "test.go").unwrap();

    let imports_edges: Vec<_> = graph.edges.iter().filter(|e| e.kind == EdgeKind::Imports).collect();
    assert_eq!(imports_edges.len(), 2, "Expected 2 Imports edges");
    assert!(imports_edges.iter().any(|e| e.to_id == "fmt"));
    assert!(imports_edges.iter().any(|e| e.to_id == "myapp/utils"));

    let interface_nodes: Vec<_> = graph.nodes.iter().filter(|n| n.kind == NodeKind::Interface).collect();
    assert_eq!(interface_nodes.len(), 1, "Expected 1 Interface node");
    assert_eq!(interface_nodes[0].label, "Runner");

    let class_nodes: Vec<_> = graph.nodes.iter().filter(|n| n.kind == NodeKind::Class).collect();
    assert_eq!(class_nodes.len(), 1, "Expected 1 Class node");
    assert_eq!(class_nodes[0].label, "Dog");

    let inherits_edges: Vec<_> = graph.edges.iter().filter(|e| e.kind == EdgeKind::Inherits).collect();
    assert_eq!(inherits_edges.len(), 1, "Expected 1 Inherits edge");
    assert_eq!(inherits_edges[0].from_id, "test.go::Dog");
    assert_eq!(inherits_edges[0].to_id, "test.go::Animal");

    let func_nodes: Vec<_> = graph.nodes.iter().filter(|n| matches!(n.kind, NodeKind::Function { .. })).collect();
    assert_eq!(func_nodes.len(), 2, "Expected 2 Function nodes");
    assert!(func_nodes.iter().any(|n| n.label == "Run"));
    let main_func = func_nodes.iter().find(|n| n.label == "main").unwrap();
    assert!(main_func.is_public, "main must be marked as entry point (is_public: true)");
}

#[test]
fn test_go_method_ids_and_lines() {
    let src = "package p\nimport _ \"x\"\nimport \"C\"\nfunc (d *Dog) Bark() {}\nfunc helper() {}\n";
    let graph = GoParser::new().parse(src, "dir\\a.go").unwrap();
    assert_eq!(graph.nodes[0].id, "dir/a.go");
    assert_eq!(graph.nodes[0].label, "a.go");
    assert!(graph.edges.is_empty());
    let bark = graph.nodes.iter().find(|n| n.label == "Bark").unwrap();
    assert_eq!(bark.id, "dir/a.go::Dog::Bark");
    assert_eq!(bark.line, Some(4));
    assert!(bark.is_public);
    let helper = graph.nodes.iter().find(|n| n.label == "helper").unwrap();
    assert!(!helper.is_public);
    assert_eq!(graph.meta.language, "go");
    assert_eq!(graph.meta.node_count, graph.nodes.len());
}

#[test]
fn test_parse_python_snippet() {
    let parser = PythonParser::new();
    let source = r#"
import os
from collections import defaultdict

class Graph:
    def __init__(self):
        self.nodes = defaultdict(list)

    def add_node(self, node):
        self.nodes[node] = True
        os.path.join("a", "b")

@dataclass
class Edge:
    source: str
    target: str
"#;
    let graph = parser.parse(source, "test.py").unwrap();
    assert!(graph.nodes.iter().any(|n| n.label == "Graph" && n.parent_id.as_deref() == Some("test.py")));
    assert!(graph.nodes.iter().any(|n| n.label == "Edge@dataclass"));
    assert!(graph.edges.iter().any(|e| e.kind == EdgeKind::Imports && e.to_id == "os"));
    assert!(graph.edges.iter().any(|e| e.kind == EdgeKind::Imports && e.to_id == "collections.defaultdict"));
    assert!(graph
        .edges
        .iter()
        .any(|e| e.kind == EdgeKind::Calls && e.from_id == "test.py::Graph::add_node" && e.to_id == "os.path.join"));
}

#[test]
fn test_python_calls_resolve_scope_and_self() {
    let source = "from m import f\nclass A(Base):\n    def g(self):\n        f()\n        self.h()\n";
    let graph = PythonParser::new().parse(source, "p.py").unwrap();
    assert!(graph.edges.iter().any(|e| e.kind == EdgeKind::Calls && e.from_id == "p.py::A::g" && e.to_id == "m.f"));
    assert!(graph.edges.iter().any(|e| e.kind == EdgeKind::Calls && e.to_id == "p.py::A::h"));
    assert!(graph.edges.iter().any(|e| e.kind == EdgeKind::Inherits && e.from_id == "p.py::A" && e.to_id == "p.py::Base"));
    assert_eq!(graph.nodes[0].kind, NodeKind::Module);
    assert_eq!(graph.meta.node_count, 0);
}

#[test]
fn test_parse_rust_snippet() {
    let snippet = r#"
use std::fmt;

trait Greet: fmt::Display {}
struct Dog;
impl Greet for Dog {}
pub async fn bark() {}
"#;
    let parser = RustLangParser::new();
    let graph = parser.parse(snippet, "test.rs").unwrap();

    let imports: Vec<_> = graph.edges.iter().filter(|e| e.kind == EdgeKind::Imports).collect();
    assert_eq!(imports.len(), 1, "Expected 1 Imports edge");
    assert_eq!(imports[0].to_id, "std::fmt", "Imports should be std::fmt");

    let interfaces: Vec<_> = graph.nodes.iter().filter(|n| n.kind == NodeKind::Interface).collect();
    assert_eq!(interfaces.len(), 1, "Expected 1 Interface node");
    assert_eq!(interfaces[0].label, "Greet", "Interface should be Greet");

    let inherits: Vec<_> = graph.edges.iter().filter(|e| e.kind == EdgeKind::Inherits).collect();
    assert_eq!(inherits.len(), 1, "Expected 1 Inherits edge");
    assert_eq!(inherits[0].from_id, "test.rs::Greet");
    assert_eq!(inherits[0].to_id, "fmt::Display");

    let classes: Vec<_> = graph.nodes.iter().filter(|n| n.kind == NodeKind::Class).collect();
    assert_eq!(classes.len(), 1, "Expected 1 Class node");
    assert_eq!(classes[0].label, "Dog");

    let implements: Vec<_> = graph.edges.iter().filter(|e| e.kind == EdgeKind::Implements).collect();
    assert_eq!(implements.len(), 1, "Expected 1 Implements edge");
    assert_eq!(implements[0].from_id, "test.rs::Dog");
    assert_eq!(implements[0].to_id, "Greet");

    let funcs: Vec<_> = graph.nodes.iter().filter(|n| matches!(n.kind, NodeKind::Function { .. })).collect();
    assert_eq!(funcs.len(), 1, "Expected 1 Function node");
    assert_eq!(funcs[0].label, "bark");
    assert_eq!(funcs[0].is_public, true);
    if let NodeKind::Function { is_async } = funcs[0].kind {
        assert!(is_async, "Function should be async");
    } else {
        panic!("Expected Function node");
    }
}

#[test]
fn test_rust_syntax_error_and_use_paths() {
    let err = RustLangParser::new().parse("fn (", "bad.rs").unwrap_err();
    assert_eq!(err.message, "Syntax error");
    let graph = RustLangParser::new().parse("use a::b::C;\nmod m;\nuse x;\nstruct S<T> where T: Copy { t: T }\n", "s.rs").unwrap();
    let imports: Vec<_> = graph.edges.iter().map(|e| e.to_id.clone()).collect();
    assert!(imports.contains(&"a::b".to_string()));
    assert!(imports.contains(&"m".to_string()));
    assert!(imports.contains(&"x".to_string()));
    assert!(graph.nodes.iter().any(|n| n.label == "S" && n.id == "s.rs::S"));
}

#[test]
fn test_parse_java_snippet() {
    let snippet = r#"
import java.util.List;
import java.io.*;

interface Runnable { void run(); }
class Animal {}
class Dog extends Animal implements Runnable {
    @Override
    public void run() {}
    public static void main(String[] args) {}
}
"#;
    let parser = JavaParser::new();
    let graph = parser.parse(snippet, "test.java").unwrap();

    let imports_edges: Vec<_> = graph.edges.iter().filter(|e| e.kind == EdgeKind::Imports).collect();
    assert_eq!(imports_edges.len(), 2, "Expected 2 Imports edges");
    assert!(imports_edges.iter().any(|e| e.to_id == "java.util.List"));
    assert!(imports_edges.iter().any(|e| e.to_id == "java.io"));

    let interface_nodes: Vec<_> = graph.nodes.iter().filter(|n| n.kind == NodeKind::Interface).collect();
    assert_eq!(interface_nodes.len(), 1, "Expected 1 Interface node");
    assert_eq!(interface_nodes[0].label, "Runnable");

    let class_nodes: Vec<_> = graph.nodes.iter().filter(|n| n.kind == NodeKind::Class).collect();
    assert_eq!(class_nodes.len(), 2, "Expected 2 Class nodes");
    assert!(class_nodes.iter().any(|n| n.label == "Animal"));
    assert!(class_nodes.iter().any(|n| n.label == "Dog"));

    let inherits_edges: Vec<_> = graph.edges.iter().filter(|e| e.kind == EdgeKind::Inherits).collect();
    assert_eq!(inherits_edges.len(), 1, "Expected 1 Inherits edge");
    assert_eq!(inherits_edges[0].from_id, "test.java::Dog");
    assert_eq!(inherits_edges[0].to_id, "test.java::Animal");

    let implements_edges: Vec<_> = graph.edges.iter().filter(|e| e.kind == EdgeKind::Implements).collect();
    assert_eq!(implements_edges.len(), 1, "Expected 1 Implements edge");
    assert_eq!(implements_edges[0].from_id, "test.java::Dog");
    assert_eq!(implements_edges[0].to_id, "test.java::Runnable");

    let func_nodes: Vec<_> = graph.nodes.iter().filter(|n| matches!(n.kind, NodeKind::Function { .. })).collect();
    assert_eq!(func_nodes.len(), 2, "Expected 2 Function nodes");
    assert!(func_nodes.iter().any(|n| n.label.contains("run")));

    let main_func = func_nodes.iter().find(|n| n.label == "main").unwrap();
    assert!(main_func.is_public, "main must be marked as entry point (is_public: true)");
}

#[test]
fn test_java_annotations_and_file_node() {
    let snippet = "@Deprecated\nclass A {\n  @Test\n  void t() {}\n}\n";
    let graph = JavaParser::new().parse(snippet, "dir/A.java").unwrap();
    assert_eq!(graph.nodes[0].id, "dir/A.java");
    assert_eq!(graph.nodes[0].label, "A.java");
    assert_eq!(graph.nodes[0].kind, NodeKind::File);
    let class = graph.nodes.iter().find(|n| n.kind == NodeKind::Class).unwrap();
    // The Java grammar holds modifiers under no field, so annotations never reach labels.
    assert_eq!(class.label, "A");
    assert_eq!(class.id, "dir/A.java::A");
    assert_eq!(class.line, Some(2));
    let f = graph.nodes.iter().find(|n| matches!(n.kind, NodeKind::Function { .. })).unwrap();
    assert_eq!(f.label, "t");
    assert!(!f.is_public);
    assert_eq!(graph.meta.language, "java");
    assert_eq!(graph.meta.node_count, graph.nodes.len());
    assert_eq!(graph.meta.edge_count, graph.edges.len());
}

#[test]
fn test_kotlin_parser() {
    let parser = KotlinParser::new();
    let source_code = r#"
import java.util.List

interface Runnable { fun run() }
open class Animal
class Dog : Animal(), Runnable {
    override fun run() {}
    suspend fun fetch() {}
}
"#;
    let graph = parser.parse(source_code, "test.kt").unwrap();

    let imports_edges: Vec<_> = graph.edges.iter().filter(|e| e.kind == EdgeKind::Imports).collect();
    assert_eq!(imports_edges.len(), 1);
    assert_eq!(imports_edges[0].to_id, "java.util.List");

    let interfaces: Vec<_> = graph.nodes.iter().filter(|n| n.kind == NodeKind::Interface).collect();
    assert_eq!(interfaces.len(), 1);
    assert_eq!(interfaces[0].id, "Runnable");

    let classes: Vec<_> = graph.nodes.iter().filter(|n| n.kind == NodeKind::Class).collect();
    assert_eq!(classes.len(), 2);
    assert!(classes.iter().any(|n| n.id == "Animal"));
    assert!(classes.iter().any(|n| n.id == "Dog"));

    let inherits: Vec<_> = graph.edges.iter().filter(|e| e.kind == EdgeKind::Inherits).collect();
    assert_eq!(inherits.len(), 1);
    assert_eq!(inherits[0].from_id, "Dog");
    assert_eq!(inherits[0].to_id, "Animal");

    let implements: Vec<_> = graph.edges.iter().filter(|e| e.kind == EdgeKind::Implements).collect();
    assert_eq!(implements.len(), 1);
    assert_eq!(implements[0].from_id, "Dog");
    assert_eq!(implements[0].to_id, "Runnable");

    let functions: Vec<_> = graph.nodes.iter().filter(|n| matches!(n.kind, NodeKind::Function { .. })).collect();
    assert_eq!(functions.len(), 2);

    let fetch_fn = functions.iter().find(|n| n.id == "fetch").unwrap();
    assert!(matches!(fetch_fn.kind, NodeKind::Function { is_async: true }));

    let run_fn = functions.iter().find(|n| n.id == "run").unwrap();
    assert!(matches!(run_fn.kind, NodeKind::Function { is_async: false }));
}

#[test]
fn test_kotlin_objects_data_and_meta() {
    let source = "data class Point(val x: Int)\nobject Registry {\n  fun lookup() {}\n}\n";
    let graph = KotlinParser::new().parse(source, "src\\Main.kt").unwrap();
    let point = graph.nodes.iter().find(|n| n.id == "Point").unwrap();
    assert_eq!(point.label, "Point[data]");
    assert_eq!(point.file_path, "src/Main.kt");
    assert_eq!(point.line, Some(1));
    let registry = graph.nodes.iter().find(|n| n.id == "Registry").unwrap();
    assert_eq!(registry.label, "Registry[object]");
    assert_eq!(registry.kind, NodeKind::Class);
    assert!(graph.nodes.iter().any(|n| n.id == "lookup"));
    assert_eq!(graph.meta.language, "kotlin");
    assert_eq!(graph.meta.source_root, "src\\Main.kt");
    assert_eq!(graph.meta.node_count, graph.nodes.len());
}

#[test]
fn test_esm_imports() {
    let parser = TypeScriptParser::new();
    let source = r#"
            import { readFile } from 'fs';
            import * as path from 'path';
            import 'dotenv/config';
            import type { Config } from './config';
            const x = import('dynamic');
        "#;
    let graph = parser.parse(source, "index.ts").unwrap();

    let imports: Vec<_> = graph.edges.iter().filter(|e| e.kind == EdgeKind::Imports).collect();
    assert_eq!(imports.len(), 3);
    assert!(imports.iter().any(|e| e.to_id == "fs"));
    assert!(imports.iter().any(|e| e.to_id == "path"));
    assert!(imports.iter().any(|e| e.to_id == "dotenv/config"));

    assert!(!imports.iter().any(|e| e.to_id == "./config"));
    assert!(!imports.iter().any(|e| e.to_id == "dynamic"));
}

#[test]
fn test_cjs_require() {
    let parser = TypeScriptParser::new();
    let source = r#"
            const fs = require('fs');
            const path = require("path");
            const dynamic = require.resolve('module');
        "#;
    let graph = parser.parse(source, "index.js").unwrap();

    let imports: Vec<_> = graph.edges.iter().filter(|e| e.kind == EdgeKind::Imports).collect();
    assert_eq!(imports.len(), 2);
    assert!(imports.iter().any(|e| e.to_id == "fs"));
    assert!(imports.iter().any(|e| e.to_id == "path"));

    assert!(!imports.iter().any(|e| e.to_id == "module"));
}

#[test]
fn test_class_inheritance() {
    let parser = TypeScriptParser::new();
    let source = r#"
            class Animal {}
            class Dog extends Animal {}
            interface IFoo {}
            interface IBar extends IFoo {}
        "#;
    let graph = parser.parse(source, "models.ts").unwrap();

    let classes: Vec<_> = graph.nodes.iter().filter(|n| n.kind == NodeKind::Class).collect();
    assert_eq!(classes.len(), 2);

    let interfaces: Vec<_> = graph.nodes.iter().filter(|n| n.kind == NodeKind::Interface).collect();
    assert_eq!(interfaces.len(), 2);

    let inherits: Vec<_> = graph.edges.iter().filter(|e| e.kind == EdgeKind::Inherits).collect();
    assert_eq!(inherits.len(), 2);
    assert!(inherits.iter().any(|e| e.from_id == "models.ts::Dog" && e.to_id == "models.ts::Animal"));
    assert!(inherits.iter().any(|e| e.from_id == "models.ts::IBar" && e.to_id == "models.ts::IFoo"));
}

#[test]
fn test_functions_and_exports() {
    let parser = TypeScriptParser::new();
    let source = r#"
            function normal() {}
            async function fetch() {}
            const arrow = () => {}
            const asyncArrow = async () => {}

            export function exportedFunc() {}
            export class ExportedClass {}
            export default function() {}
        "#;
    let graph = parser.parse(source, "funcs.ts").unwrap();

    let funcs: Vec<_> = graph.nodes.iter().filter(|n| matches!(n.kind, NodeKind::Function { .. })).collect();

    let normal = funcs.iter().find(|n| n.label == "normal").unwrap();
    assert_eq!(normal.kind, NodeKind::Function { is_async: false });

    let fetch = funcs.iter().find(|n| n.label == "fetch").unwrap();
    assert_eq!(fetch.kind, NodeKind::Function { is_async: true });

    let arrow = funcs.iter().find(|n| n.label == "arrow").unwrap();
    assert_eq!(arrow.kind, NodeKind::Function { is_async: false });

    let async_arrow = funcs.iter().find(|n| n.label == "asyncArrow").unwrap();
    assert_eq!(async_arrow.kind, NodeKind::Function { is_async: true });

    let exported_func = funcs.iter().find(|n| n.label == "exportedFunc").unwrap();
    assert!(exported_func.is_public);

    let exported_class = graph.nodes.iter().find(|n| n.label == "ExportedClass").unwrap();
    assert!(exported_class.is_public);
}

#[test]
fn test_typescript_export_list_and_paths() {
    let source = "function helper() {}\nclass Hidden {}\nexport { helper };\n";
    let graph = TypeScriptParser::new().parse(source, "lib/util.ts").unwrap();
    let helper = graph.nodes.iter().find(|n| n.label == "helper").unwrap();
    assert_eq!(helper.id, "lib/util.ts::helper");
    // The names of `export { .. }` sit inside an export clause, not directly under the
    // statement, so they are not marked.
    assert!(!helper.is_public);
    assert_eq!(helper.line, Some(1));
    let hidden = graph.nodes.iter().find(|n| n.label == "Hidden").unwrap();
    assert!(!hidden.is_public);
    assert_eq!(graph.meta.language, "typescript");
    assert!(graph.control_flow.is_empty());
    assert!(is_tsx_path("App.tsx"));
    assert!(is_tsx_path("App.jsx"));
    assert!(!is_tsx_path("App.ts"));
    let tsx = TypeScriptParser::new().parse("const App = () => <div/>;\n", "App.tsx").unwrap();
    assert!(tsx.nodes.iter().any(|n| n.label == "App"));
}

#[test]
fn test_resolve_import_path_with_mod() {
    let go_mod = "module github.com/user/myapp\n\ngo 1.21";
    let resolved = resolve_import_path("github.com/user/myapp/pkg/parser", Some(go_mod));
    assert_eq!(resolved, "pkg/parser");
    let resolved_external = resolve_import_path("github.com/other/pkg", Some(go_mod));
    assert_eq!(resolved_external, "github.com/other/pkg");
}

#[test]
fn test_go_mod_edge_cases_and_parser() {
    assert_eq!(resolve_import_path("example.com/m", Some("  module example.com/m  \r\n")), "");
    assert_eq!(resolve_import_path("example.com/m//x", Some("module example.com/m")), "x");
    assert_eq!(resolve_import_path("a/b", None), "a/b");
    assert_eq!(resolve_import_path("b/c", Some("module a\nmodule b\n")), "c");
    let parser = GoParser::with_go_mod("module example.com/app\n".to_string());
    let graph = parser.parse("package main\nimport \"example.com/app/util\"\n", "main.go").unwrap();
    assert!(graph.edges.iter().any(|e| e.kind == EdgeKind::Imports && e.to_id == "util"));
}

#[test]
fn parser_for_file_names_the_parser_and_the_slashed_path() {
    let mut registry = LanguageRegistry::new();
    registry.register(Box::new(MockParser { name: "python", extensions: vec!["py"] }));
    registry.register(Box::new(MockParser { name: "python3", extensions: vec!["py"] }));
    let (parser, path) = registry.parser_for_file("src\\auth\\middleware.py").unwrap();
    assert_eq!(parser.language_name(), "python3");
    assert_eq!(path, "src/auth/middleware.py");
    assert!(registry.parser_for_file("main.go").is_none());
    assert_eq!(registry.find_parser("py").unwrap().language_name(), "python3");
}
