//! The Rust extractor: uses, modules, crates, types, traits, impls and functions.

use vstd::prelude::*;
use crate::extract::{edge_v, fresh_meta, last_segment, last_segment_exec, line_from_row, line_of, make_symbol_id, new_meta, symbol_id, symbol_node};
use crate::go::parse_failure;
use crate::ir::{CodeGraph, Edge, EdgeKind, EdgeV, Node, NodeKind, NodeV, edges_v, nodes_v};
use crate::parser::{LanguageParser, ParseError};
use crate::path_utils::{forward_slash, normalize_path};
use crate::syntax::{RUST_GRAMMAR, SyntaxNode, child_by_field, field_child, kind_is, parse_syntax, rust_grammar, text_of, tree_has_error, tree_of_source, tree_start_row};
use crate::text::{chars_of, copy_string, string_from_chars, to_owned_string};
use crate::textops::{base_module, base_module_exec, cut_at, cut_at_exec, trim_ws, trim_ws_exec};

verus! {

/// A name without generics and `where` clause, trimmed.
pub open spec fn sanitize_label(t: Seq<char>) -> Seq<char> {
    trim_ws(cut_at(cut_at(t, "<"@), " where"@))
}

/// A name without generics and `where` clause, trimmed.
pub fn sanitize_label_exec(t: &String) -> (r: String)
    ensures
        r@ == sanitize_label(t@),
{
    let v = chars_of(t.as_str());
    let lt = chars_of("<");
    let wh = chars_of(" where");
    let a = cut_at_exec(&v, &lt);
    let b = cut_at_exec(&a, &wh);
    let c = trim_ws_exec(&b);
    string_from_chars(c.as_slice())
}

/// The text of a node that a field holds, or nothing.
pub open spec fn field_text(n: SyntaxNode, f: Seq<char>) -> Option<Seq<char>> {
    match field_child(n, f) {
        Some(c) => Some(text_of(c)),
        None => None,
    }
}

/// The edges of one path of a `use` declaration.
pub open spec fn rs_use_path(n: SyntaxNode, path: Seq<char>) -> Seq<EdgeV>
    decreases n,
{
    if n.kind@ == "scoped_identifier"@ {
        seq![edge_v(path, base_module(text_of(n)), EdgeKind::Imports)]
    } else if n.kind@ == "identifier"@ {
        seq![edge_v(path, text_of(n), EdgeKind::Imports)]
    } else if n.kind@ == "use_list"@ {
        rs_use_list(n.children@, path)
    } else {
        seq![]
    }
}

/// The edges of the paths of a use list.
pub open spec fn rs_use_list(cs: Seq<SyntaxNode>, path: Seq<char>) -> Seq<EdgeV>
    decreases cs,
{
    if cs.len() == 0 {
        seq![]
    } else {
        let c = cs.last();
        rs_use_list(cs.drop_last(), path) + if c.kind@ == "scoped_identifier"@ || c.kind@ == "identifier"@ {
            rs_use_path(c, path)
        } else {
            seq![]
        }
    }
}

/// The edges of a `use` declaration's children.
pub open spec fn rs_use(cs: Seq<SyntaxNode>, path: Seq<char>) -> Seq<EdgeV>
    decreases cs.len(),
{
    if cs.len() == 0 {
        seq![]
    } else {
        let c = cs.last();
        rs_use(cs.drop_last(), path) + if c.kind@ == "scoped_identifier"@ || c.kind@ == "identifier"@ || c.kind@ == "use_list"@ {
            rs_use_path(c, path)
        } else {
            seq![]
        }
    }
}

/// Whether a child of the item is a visibility modifier.
pub open spec fn rs_public(cs: Seq<SyntaxNode>) -> bool {
    exists|i: int| 0 <= i < cs.len() && #[trigger] cs[i].kind@ == "visibility_modifier"@
}

/// Whether a function's modifiers hold `async`.
pub open spec fn rs_async(cs: Seq<SyntaxNode>) -> bool {
    exists|i: int, j: int| 0 <= i < cs.len() && #[trigger] cs[i].kind@ == "function_modifiers"@
        && 0 <= j < cs[i].children@.len() && #[trigger] cs[i].children@[j].kind@ == "async"@
}

/// The `Inherits` edges of a trait's bounds.
pub open spec fn rs_bounds(cs: Seq<SyntaxNode>, id: Seq<char>) -> Seq<EdgeV>
    decreases cs.len(),
{
    if cs.len() == 0 {
        seq![]
    } else {
        let c = cs.last();
        rs_bounds(cs.drop_last(), id) + if c.kind@ == "trait_bound"@ || c.kind@ == "type_identifier"@ || c.kind@ == "scoped_type_identifier"@ {
            seq![edge_v(id, sanitize_label(text_of(c)), EdgeKind::Inherits)]
        } else {
            seq![]
        }
    }
}

/// What one item adds: its nodes and its edges. `file` is the path as given (impls
/// start their edges there), `path` the path with forward slashes.
pub open spec fn rs_item(n: SyntaxNode, file: Seq<char>, path: Seq<char>) -> (Seq<NodeV>, Seq<EdgeV>) {
    let k = n.kind@;
    if k == "use_declaration"@ {
        (seq![], rs_use(n.children@, path))
    } else if k == "mod_item"@ || k == "extern_crate_declaration"@ {
        match field_text(n, "name"@) {
            Some(t) => (seq![], seq![edge_v(path, t, EdgeKind::Imports)]),
            None => (seq![], seq![]),
        }
    } else if k == "struct_item"@ || k == "enum_item"@ {
        match field_text(n, "name"@) {
            Some(t) => {
                let l = sanitize_label(t);
                (seq![symbol_node(symbol_id(path, l), l, NodeKind::Class, path, line_of(n.row), rs_public(n.children@), None)], seq![])
            },
            None => (seq![], seq![]),
        }
    } else if k == "trait_item"@ {
        match field_text(n, "name"@) {
            Some(t) => {
                let l = sanitize_label(t);
                let id = symbol_id(path, l);
                (seq![symbol_node(id, l, NodeKind::Interface, path, line_of(n.row), rs_public(n.children@), None)],
                 match field_child(n, "bounds"@) { Some(b) => rs_bounds(b.children@, id), None => seq![] })
            },
            None => (seq![], seq![]),
        }
    } else if k == "impl_item"@ {
        match (field_text(n, "type"@), field_text(n, "trait"@)) {
            (Some(t), Some(tr)) => (seq![], seq![edge_v(symbol_id(file, sanitize_label(t)), sanitize_label(tr), EdgeKind::Implements)]),
            _ => (seq![], seq![]),
        }
    } else if k == "function_item"@ {
        match field_text(n, "name"@) {
            Some(t) => {
                let l = sanitize_label(t);
                (seq![symbol_node(symbol_id(path, l), l, NodeKind::Function { is_async: rs_async(n.children@) }, path,
                    line_of(n.row), rs_public(n.children@), None)], seq![])
            },
            None => (seq![], seq![]),
        }
    } else {
        (seq![], seq![])
    }
}

/// Visits a node: its item first, then its children from the last to the first, macro
/// invocations and attributes left out.
pub open spec fn rs_visit(n: SyntaxNode, file: Seq<char>, path: Seq<char>, st: (Seq<NodeV>, Seq<EdgeV>)) -> (Seq<NodeV>, Seq<EdgeV>)
    decreases n,
{
    let it = rs_item(n, file, path);
    rs_visit_back(n.children@, file, path, (st.0 + it.0, st.1 + it.1))
}

/// Visits the nodes from the last to the first, macro invocations and attributes left out.
pub open spec fn rs_visit_back(cs: Seq<SyntaxNode>, file: Seq<char>, path: Seq<char>, st: (Seq<NodeV>, Seq<EdgeV>)) -> (Seq<NodeV>, Seq<EdgeV>)
    decreases cs,
{
    if cs.len() == 0 {
        st
    } else {
        let c = cs.last();
        let st1 = if c.kind@ != "macro_invocation"@ && c.kind@ != "attribute_item"@ { rs_visit(c, file, path, st) } else { st };
        rs_visit_back(cs.drop_last(), file, path, st1)
    }
}

fn push_edge(edges: &mut Vec<Edge>, from: String, to: String, kind: EdgeKind)
    ensures
        edges_v(final(edges)@) == edges_v(old(edges)@).push(edge_v(from@, to@, kind)),
{
    edges.push(Edge { from_id: from, to_id: to, kind });
    assert(edges_v(edges@) =~= edges_v(old(edges)@).push(edge_v(from@, to@, kind)));
}

fn text_or_empty(n: &SyntaxNode) -> (r: String)
    ensures
        r@ == text_of(*n),
{
    match &n.text {
        Some(t) => copy_string(t),
        None => String::new(),
    }
}

fn field_text_exec(n: &SyntaxNode, f: &str) -> (r: Option<String>)
    ensures
        opt_text(r) == field_text(*n, f@),
{
    match child_by_field(n, f) {
        Some(c) => Some(text_or_empty(c)),
        None => None,
    }
}

/// The plain value of an optional text.
pub open spec fn opt_text(o: Option<String>) -> Option<Seq<char>> {
    match o { Some(s) => Some(s@), None => None }
}

fn rs_use_path_exec(n: &SyntaxNode, path: &String, edges: &mut Vec<Edge>)
    ensures
        edges_v(final(edges)@) == edges_v(old(edges)@) + rs_use_path(*n, path@),
    decreases n,
{
    let ghost e0 = edges_v(edges@);
    if kind_is(n, "scoped_identifier") {
        let t = text_or_empty(n);
        let tv = chars_of(t.as_str());
        let b = base_module_exec(&tv);
        push_edge(edges, copy_string(path), string_from_chars(b.as_slice()), EdgeKind::Imports);
        assert(edges_v(edges@) =~= e0 + rs_use_path(*n, path@));
    } else if kind_is(n, "identifier") {
        push_edge(edges, copy_string(path), text_or_empty(n), EdgeKind::Imports);
        assert(edges_v(edges@) =~= e0 + rs_use_path(*n, path@));
    } else if kind_is(n, "use_list") {
        proof {
            assert(decreases_to!(*n => n.children));
        }
        rs_use_list_exec(&n.children, path, edges);
    } else {
        assert(edges_v(edges@) =~= e0 + rs_use_path(*n, path@));
    }
}

fn rs_use_list_exec(cs: &Vec<SyntaxNode>, path: &String, edges: &mut Vec<Edge>)
    ensures
        edges_v(final(edges)@) == edges_v(old(edges)@) + rs_use_list(cs@, path@),
    decreases cs,
{
    let ghost e0 = edges_v(edges@);
    let mut i: usize = 0;
    while i < cs.len()
        invariant
            i <= cs@.len(),
            edges_v(edges@) == e0 + rs_use_list(cs@.take(i as int), path@),
        decreases cs@.len() - i,
    {
        assert(cs@.take(i + 1).drop_last() =~= cs@.take(i as int));
        assert(cs@.take(i + 1).last() == cs@[i as int]);
        let ghost e1 = edges_v(edges@);
        if kind_is(&cs[i], "scoped_identifier") || kind_is(&cs[i], "identifier") {
            proof {
                assert(decreases_to!(cs => cs@));
                assert(decreases_to!(cs@ => cs@[i as int]));
            }
            rs_use_path_exec(&cs[i], path, edges);
        }
        i = i + 1;
        assert(edges_v(edges@) =~= e0 + rs_use_list(cs@.take(i as int), path@));
    }
    assert(cs@.take(cs@.len() as int) =~= cs@);
}

fn rs_use_exec(cs: &Vec<SyntaxNode>, path: &String, edges: &mut Vec<Edge>)
    ensures
        edges_v(final(edges)@) == edges_v(old(edges)@) + rs_use(cs@, path@),
{
    let ghost e0 = edges_v(edges@);
    let mut i: usize = 0;
    while i < cs.len()
        invariant
            i <= cs@.len(),
            edges_v(edges@) == e0 + rs_use(cs@.take(i as int), path@),
        decreases cs@.len() - i,
    {
        assert(cs@.take(i + 1).drop_last() =~= cs@.take(i as int));
        if kind_is(&cs[i], "scoped_identifier") || kind_is(&cs[i], "identifier") || kind_is(&cs[i], "use_list") {
            rs_use_path_exec(&cs[i], path, edges);
        }
        i = i + 1;
        assert(edges_v(edges@) =~= e0 + rs_use(cs@.take(i as int), path@));
    }
    assert(cs@.take(cs@.len() as int) =~= cs@);
}

fn rs_public_exec(cs: &Vec<SyntaxNode>) -> (r: bool)
    ensures
        r == rs_public(cs@),
{
    let mut i: usize = 0;
    while i < cs.len()
        invariant
            i <= cs@.len(),
            forall|j: int| 0 <= j < i ==> #[trigger] cs@[j].kind@ != "visibility_modifier"@,
        decreases cs@.len() - i,
    {
        if kind_is(&cs[i], "visibility_modifier") {
            return true;
        }
        i = i + 1;
    }
    false
}

fn rs_async_exec(cs: &Vec<SyntaxNode>) -> (r: bool)
    ensures
        r == rs_async(cs@),
{
    let mut i: usize = 0;
    while i < cs.len()
        invariant
            i <= cs@.len(),
            forall|a: int, b: int| 0 <= a < i && #[trigger] cs@[a].kind@ == "function_modifiers"@
                && 0 <= b < cs@[a].children@.len() ==> #[trigger] cs@[a].children@[b].kind@ != "async"@,
        decreases cs@.len() - i,
    {
        if kind_is(&cs[i], "function_modifiers") {
            let ms = &cs[i].children;
            let mut j: usize = 0;
            while j < ms.len()
                invariant
                    i < cs@.len(),
                    cs@[i as int].kind@ == "function_modifiers"@,
                    ms@ == cs@[i as int].children@,
                    j <= ms@.len(),
                    forall|b: int| 0 <= b < j ==> #[trigger] ms@[b].kind@ != "async"@,
                decreases ms@.len() - j,
            {
                if kind_is(&ms[j], "async") {
                    assert(cs@[i as int].children@[j as int].kind@ == "async"@);
                    assert(cs@[i as int].kind@ == "function_modifiers"@);
                    assert(rs_async(cs@));
                    return true;
                }
                j = j + 1;
            }
        }
        i = i + 1;
    }
    false
}

fn rs_bounds_exec(cs: &Vec<SyntaxNode>, id: &String, edges: &mut Vec<Edge>)
    ensures
        edges_v(final(edges)@) == edges_v(old(edges)@) + rs_bounds(cs@, id@),
{
    let ghost e0 = edges_v(edges@);
    let mut i: usize = 0;
    while i < cs.len()
        invariant
            i <= cs@.len(),
            edges_v(edges@) == e0 + rs_bounds(cs@.take(i as int), id@),
        decreases cs@.len() - i,
    {
        assert(cs@.take(i + 1).drop_last() =~= cs@.take(i as int));
        let c = &cs[i];
        if kind_is(c, "trait_bound") || kind_is(c, "type_identifier") || kind_is(c, "scoped_type_identifier") {
            let t = text_or_empty(c);
            push_edge(edges, copy_string(id), sanitize_label_exec(&t), EdgeKind::Inherits);
        }
        i = i + 1;
        assert(edges_v(edges@) =~= e0 + rs_bounds(cs@.take(i as int), id@));
    }
    assert(cs@.take(cs@.len() as int) =~= cs@);
}

fn push_node(nodes: &mut Vec<Node>, n: Node)
    ensures
        nodes_v(final(nodes)@) == nodes_v(old(nodes)@).push(n@),
{
    nodes.push(n);
    assert(nodes_v(nodes@) =~= nodes_v(old(nodes)@).push(n@));
}

fn rs_item_exec(n: &SyntaxNode, file: &String, path: &String, nodes: &mut Vec<Node>, edges: &mut Vec<Edge>)
    ensures
        nodes_v(final(nodes)@) == nodes_v(old(nodes)@) + rs_item(*n, file@, path@).0,
        edges_v(final(edges)@) == edges_v(old(edges)@) + rs_item(*n, file@, path@).1,
{
    let ghost n0 = nodes_v(nodes@);
    let ghost e0 = edges_v(edges@);
    let ghost it = rs_item(*n, file@, path@);
    if kind_is(n, "use_declaration") {
        rs_use_exec(&n.children, path, edges);
    } else if kind_is(n, "mod_item") || kind_is(n, "extern_crate_declaration") {
        match field_text_exec(n, "name") {
            Some(t) => push_edge(edges, copy_string(path), t, EdgeKind::Imports),
            None => {},
        }
    } else if kind_is(n, "struct_item") || kind_is(n, "enum_item") {
        match field_text_exec(n, "name") {
            Some(t) => {
                let l = sanitize_label_exec(&t);
                push_node(nodes, Node {
                    id: make_symbol_id(path, &l),
                    label: l,
                    kind: NodeKind::Class,
                    file_path: copy_string(path),
                    line: line_from_row(n.row),
                    is_public: rs_public_exec(&n.children),
                    parent_id: None,
                });
            },
            None => {},
        }
    } else if kind_is(n, "trait_item") {
        match field_text_exec(n, "name") {
            Some(t) => {
                let l = sanitize_label_exec(&t);
                let id = make_symbol_id(path, &l);
                push_node(nodes, Node {
                    id: copy_string(&id),
                    label: l,
                    kind: NodeKind::Interface,
                    file_path: copy_string(path),
                    line: line_from_row(n.row),
                    is_public: rs_public_exec(&n.children),
                    parent_id: None,
                });
                match child_by_field(n, "bounds") {
                    Some(b) => rs_bounds_exec(&b.children, &id, edges),
                    None => {},
                }
            },
            None => {},
        }
    } else if kind_is(n, "impl_item") {
        match (field_text_exec(n, "type"), field_text_exec(n, "trait")) {
            (Some(t), Some(tr)) => {
                let tl = sanitize_label_exec(&t);
                let from = make_symbol_id(file, &tl);
                push_edge(edges, from, sanitize_label_exec(&tr), EdgeKind::Implements);
            },
            _ => {},
        }
    } else if kind_is(n, "function_item") {
        match field_text_exec(n, "name") {
            Some(t) => {
                let l = sanitize_label_exec(&t);
                push_node(nodes, Node {
                    id: make_symbol_id(path, &l),
                    label: l,
                    kind: NodeKind::Function { is_async: rs_async_exec(&n.children) },
                    file_path: copy_string(path),
                    line: line_from_row(n.row),
                    is_public: rs_public_exec(&n.children),
                    parent_id: None,
                });
            },
            None => {},
        }
    }
    assert(nodes_v(nodes@) =~= n0 + it.0);
    assert(edges_v(edges@) =~= e0 + it.1);
}

fn rs_visit_exec(n: &SyntaxNode, file: &String, path: &String, nodes: &mut Vec<Node>, edges: &mut Vec<Edge>)
    ensures
        (nodes_v(final(nodes)@), edges_v(final(edges)@)) == rs_visit(*n, file@, path@, (nodes_v(old(nodes)@), edges_v(old(edges)@))),
    decreases n,
{
    rs_item_exec(n, file, path, nodes, edges);
    proof {
        assert(decreases_to!(*n => n.children));
    }
    rs_visit_back_exec(&n.children, file, path, nodes, edges);
}

fn rs_visit_back_exec(cs: &Vec<SyntaxNode>, file: &String, path: &String, nodes: &mut Vec<Node>, edges: &mut Vec<Edge>)
    ensures
        (nodes_v(final(nodes)@), edges_v(final(edges)@)) == rs_visit_back(cs@, file@, path@, (nodes_v(old(nodes)@), edges_v(old(edges)@))),
    decreases cs,
{
    let ghost st0 = (nodes_v(nodes@), edges_v(edges@));
    let mut i: usize = cs.len();
    assert(cs@.take(i as int) =~= cs@);
    while i > 0
        invariant
            i <= cs@.len(),
            rs_visit_back(cs@, file@, path@, st0) == rs_visit_back(cs@.take(i as int), file@, path@, (nodes_v(nodes@), edges_v(edges@))),
        decreases i,
    {
        assert(cs@.take(i as int).drop_last() =~= cs@.take(i - 1));
        assert(cs@.take(i as int).last() == cs@[i - 1]);
        let c = &cs[i - 1];
        if !kind_is(c, "macro_invocation") && !kind_is(c, "attribute_item") {
            proof {
                assert(decreases_to!(cs => cs@));
                assert(decreases_to!(cs@ => cs@[i - 1]));
            }
            rs_visit_exec(c, file, path, nodes, edges);
        }
        i = i - 1;
    }
}

/// Whether the graph is the one extracted from the Rust syntax tree of the file: the file
/// node, then what the walk gathers.
pub open spec fn is_rust_graph(g: CodeGraph, root: SyntaxNode, file_path: Seq<char>) -> bool {
    let path = file_path.map_values(|c: char| forward_slash(c));
    let file_node = symbol_node(path, last_segment(path), NodeKind::File, path, None, true, None);
    let st = rs_visit(root, file_path, path, (seq![file_node], seq![]));
    &&& g.nv() == st.0
    &&& g.ev() == st.1
    &&& g.control_flow@.len() == 0
    &&& fresh_meta(g.meta, "rust"@, g.nodes@.len(), g.edges@.len())
}

/// Extracts the graph of a Rust file from its syntax tree.
pub fn extract_rust(root: &SyntaxNode, file_path: &str) -> (g: CodeGraph)
    ensures
        is_rust_graph(g, *root, file_path@),
{
    let path = normalize_path(file_path);
    let file = to_owned_string(file_path);
    let mut nodes: Vec<Node> = Vec::new();
    let mut edges: Vec<Edge> = Vec::new();
    push_node(&mut nodes, Node {
        id: copy_string(&path),
        label: last_segment_exec(&path),
        kind: NodeKind::File,
        file_path: copy_string(&path),
        line: None,
        is_public: true,
        parent_id: None,
    });
    assert(edges_v(edges@) =~= Seq::<EdgeV>::empty());
    assert(nodes_v(nodes@) =~= seq![symbol_node(path@, last_segment(path@), NodeKind::File, path@, None, true, None)]);
    rs_visit_exec(root, &file, &path, &mut nodes, &mut edges);
    let mut meta = new_meta("rust");
    meta.node_count = nodes.len();
    meta.edge_count = edges.len();
    CodeGraph { nodes, edges, control_flow: Vec::new(), meta }
}

/// A parser for the Rust programming language.
pub struct RustLangParser;

impl RustLangParser {
    /// Creates a new parser.
    pub fn new() -> Self {
        RustLangParser
    }
}

impl Default for RustLangParser {
    fn default() -> Self {
        RustLangParser
    }
}

impl LanguageParser for RustLangParser {
    open spec fn claimed_extensions(&self) -> Seq<Seq<char>> {
        seq!["rs"@]
    }

    open spec fn parses_to(&self, source: Seq<char>, file_path: Seq<char>, r: Result<CodeGraph, ParseError>) -> bool {
        &&& (r is Ok <==> !tree_has_error(RUST_GRAMMAR, source, Seq::empty()))
        &&& r matches Ok(g) ==> exists|t: SyntaxNode| tree_of_source(t, RUST_GRAMMAR, source)
            && #[trigger] is_rust_graph(g, t, file_path)
        &&& r matches Err(e) ==> e.message@ == "Syntax error"@ && e.file_path@ == file_path
            && e.line == line_of(tree_start_row(RUST_GRAMMAR, source, Seq::empty()))
    }

    fn language_name(&self) -> (r: &str)
        ensures
            r@ == "rust"@,
    {
        "rust"
    }

    fn supported_extensions(&self) -> (r: &[&str])
        ensures
            r@.map_values(|e: &str| e@) == seq!["rs"@],
    {
        let r: &[&str] = &["rs"];
        assert(r@.map_values(|e: &str| e@) =~= seq!["rs"@]);
        r
    }

    /// Parses a Rust file; a source with a syntax error is refused, with the line where
    /// the file starts.
    fn parse(&self, source: &str, file_path: &str) -> (r: Result<CodeGraph, ParseError>)
        ensures
            r is Ok <==> !tree_has_error(RUST_GRAMMAR, source@, Seq::empty()),
            r matches Ok(g) ==> exists|t: SyntaxNode| tree_of_source(t, RUST_GRAMMAR, source@)
                && #[trigger] is_rust_graph(g, t, file_path@),
            r matches Err(e) ==> e.message@ == "Syntax error"@ && e.file_path@ == file_path@
                && e.line == line_of(tree_start_row(RUST_GRAMMAR, source@, Seq::empty())),
    {
        let grammar = rust_grammar();
        match parse_syntax(&grammar, source) {
            Ok(root) => {
                if root.has_error {
                    return Err(ParseError {
                        message: to_owned_string("Syntax error"),
                        file_path: to_owned_string(file_path),
                        line: line_from_row(root.row),
                    });
                }
                let g = extract_rust(&root, file_path);
                let r: Result<CodeGraph, ParseError> = Ok(g);
                assert(is_rust_graph(r->Ok_0, root, file_path@));
                r
            },
            Err(_) => Err(parse_failure("Rust", file_path)),
        }
    }
}

} // verus!
