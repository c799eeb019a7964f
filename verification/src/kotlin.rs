//! The Kotlin extractor: imports, classes, interfaces, objects, their supertypes, and
//! functions. Ids are the bare names; the walk goes down from the root, first child first.

use vstd::prelude::*;
use crate::extract::{edge_v, line_from_row, line_of, symbol_node};
use crate::ir::{CodeGraph, Edge, EdgeKind, EdgeV, GraphMeta, Node, NodeKind, NodeV, edges_v, nodes_v};
use crate::parser::{LanguageParser, ParseError};
use crate::path_utils::{forward_slash, normalize_path};
use crate::syntax::{KOTLIN_GRAMMAR, SyntaxNode, kind_is, kotlin_grammar, parse_syntax, text_of, tree_of_source};
use crate::text::{chars_of, copy_string, push_str, to_owned_string};

verus! {

/// The text of the last child of the kind (nothing where it has none), or nothing.
pub open spec fn last_text_of_kind(cs: Seq<SyntaxNode>, k: Seq<char>) -> Seq<char>
    decreases cs.len(),
{
    if cs.len() == 0 {
        Seq::empty()
    } else if cs.last().kind@ == k {
        text_of(cs.last())
    } else {
        last_text_of_kind(cs.drop_last(), k)
    }
}

/// Whether a child is of the kind.
pub open spec fn has_kind(cs: Seq<SyntaxNode>, k: Seq<char>) -> bool
    decreases cs.len(),
{
    cs.len() > 0 && (cs.last().kind@ == k || has_kind(cs.drop_last(), k))
}

/// Whether a child of the group's kind has a child of the word's kind.
pub open spec fn group_holds(cs: Seq<SyntaxNode>, group: Seq<char>, word: Seq<char>) -> bool
    decreases cs.len(),
{
    cs.len() > 0 && ((cs.last().kind@ == group && has_kind(cs.last().children@, word)) || group_holds(cs.drop_last(), group, word))
}

/// Whether a `modifiers` child holds a group that holds the word.
pub open spec fn modified_by(cs: Seq<SyntaxNode>, group: Seq<char>, word: Seq<char>) -> bool
    decreases cs.len(),
{
    cs.len() > 0 && ((cs.last().kind@ == "modifiers"@ && group_holds(cs.last().children@, group, word))
        || modified_by(cs.drop_last(), group, word))
}

/// Edges of the kind from `from` to the text of each `user_type` child.
pub open spec fn user_type_edges(cs: Seq<SyntaxNode>, from: Seq<char>, kind: EdgeKind) -> Seq<EdgeV>
    decreases cs.len(),
{
    if cs.len() == 0 {
        seq![]
    } else {
        user_type_edges(cs.drop_last(), from, kind) + if cs.last().kind@ == "user_type"@ {
            seq![edge_v(from, text_of(cs.last()), kind)]
        } else {
            seq![]
        }
    }
}

/// The edges of one delegation specifier: a constructor call is inherited from, another
/// type is implemented (by a class) or inherited from (by an interface).
pub open spec fn specifier_edges(cs: Seq<SyntaxNode>, from: Seq<char>, is_interface: bool) -> Seq<EdgeV>
    decreases cs.len(),
{
    if cs.len() == 0 {
        seq![]
    } else {
        let c = cs.last();
        specifier_edges(cs.drop_last(), from, is_interface) + if c.kind@ == "constructor_invocation"@ {
            user_type_edges(c.children@, from, EdgeKind::Inherits)
        } else if c.kind@ == "user_type"@ {
            seq![edge_v(from, text_of(c), if is_interface { EdgeKind::Inherits } else { EdgeKind::Implements })]
        } else {
            seq![]
        }
    }
}

/// The edges of all delegation specifiers among the children.
pub open spec fn delegation_edges(cs: Seq<SyntaxNode>, from: Seq<char>, is_interface: bool) -> Seq<EdgeV>
    decreases cs.len(),
{
    if cs.len() == 0 {
        seq![]
    } else {
        let c = cs.last();
        delegation_edges(cs.drop_last(), from, is_interface) + if c.kind@ == "delegation_specifier"@ {
            specifier_edges(c.children@, from, is_interface)
        } else {
            seq![]
        }
    }
}

/// A node of a declaration: its name is its id; the path is the file's, normalized.
pub open spec fn kt_node(name: Seq<char>, label: Seq<char>, kind: NodeKind, path: Seq<char>, row: usize) -> NodeV {
    symbol_node(name, label, kind, path, line_of(row), true, None)
}

/// Visits a node: what it declares, then the nodes it descends into.
pub open spec fn kt_visit(n: SyntaxNode, file: Seq<char>, path: Seq<char>, st: (Seq<NodeV>, Seq<EdgeV>)) -> (Seq<NodeV>, Seq<EdgeV>)
    decreases n, 1int,
{
    let k = n.kind@;
    let cs = n.children@;
    if k == "import_header"@ {
        let t = last_text_of_kind(cs, "identifier"@);
        if t.len() > 0 { (st.0, st.1.push(edge_v(file, t, EdgeKind::Imports))) } else { st }
    } else if k == "class_declaration"@ {
        let name = last_text_of_kind(cs, "type_identifier"@);
        if name.len() == 0 {
            st
        } else {
            let is_interface = has_kind(cs, "interface"@);
            let label = if modified_by(cs, "class_modifier"@, "data"@) { name + "[data]"@ } else { name };
            let node = kt_node(name, label, if is_interface { NodeKind::Interface } else { NodeKind::Class }, path, n.row);
            kt_bodies(cs, file, path, (st.0.push(node), st.1 + delegation_edges(cs, name, is_interface)))
        }
    } else if k == "object_declaration"@ {
        let name = last_text_of_kind(cs, "type_identifier"@);
        let st1 = if name.len() > 0 {
            (st.0.push(kt_node(name, name + "[object]"@, NodeKind::Class, path, n.row)), st.1)
        } else {
            st
        };
        kt_bodies(cs, file, path, st1)
    } else if k == "function_declaration"@ {
        let name = last_text_of_kind(cs, "simple_identifier"@);
        if name.len() == 0 {
            st
        } else {
            let kind = NodeKind::Function { is_async: modified_by(cs, "function_modifier"@, "suspend"@) };
            (st.0.push(kt_node(name, name, kind, path, n.row)), st.1)
        }
    } else if k == "companion_object"@ {
        let node = kt_node("companion_object"@, "Companion[object]"@, NodeKind::Class, path, n.row);
        kt_visit_list(cs, file, path, (st.0.push(node), st.1))
    } else if k == "object_literal"@ || k == "lambda_literal"@ || k == "ERROR"@ {
        st
    } else {
        kt_visit_list(cs, file, path, st)
    }
}

/// Visits the nodes in order.
pub open spec fn kt_visit_list(cs: Seq<SyntaxNode>, file: Seq<char>, path: Seq<char>, st: (Seq<NodeV>, Seq<EdgeV>)) -> (Seq<NodeV>, Seq<EdgeV>)
    decreases cs, 0int,
{
    if cs.len() == 0 {
        st
    } else {
        kt_visit(cs.last(), file, path, kt_visit_list(cs.drop_last(), file, path, st))
    }
}

/// Visits, in order, what each `class_body` among the children holds.
pub open spec fn kt_bodies(cs: Seq<SyntaxNode>, file: Seq<char>, path: Seq<char>, st: (Seq<NodeV>, Seq<EdgeV>)) -> (Seq<NodeV>, Seq<EdgeV>)
    decreases cs, 0int,
{
    if cs.len() == 0 {
        st
    } else {
        let st1 = kt_bodies(cs.drop_last(), file, path, st);
        let c = cs.last();
        if c.kind@ == "class_body"@ {
            kt_visit_list(c.children@, file, path, st1)
        } else {
            st1
        }
    }
}

fn push_edge(edges: &mut Vec<Edge>, from: String, to: String, kind: EdgeKind)
    ensures
        edges_v(final(edges)@) == edges_v(old(edges)@).push(edge_v(from@, to@, kind)),
{
    edges.push(Edge { from_id: from, to_id: to, kind });
    assert(edges_v(edges@) =~= edges_v(old(edges)@).push(edge_v(from@, to@, kind)));
}

fn push_node(nodes: &mut Vec<Node>, n: Node)
    ensures
        nodes_v(final(nodes)@) == nodes_v(old(nodes)@).push(n@),
{
    nodes.push(n);
    assert(nodes_v(nodes@) =~= nodes_v(old(nodes)@).push(n@));
}

fn text_or_empty(n: &SyntaxNode) -> (r: String)
    ensures
        r@ == text_of(*n),
{
    match &n.text {
        Some(t) => copy_string(t),
        None => String::new(),
    }
}

fn last_text_of_kind_exec(cs: &Vec<SyntaxNode>, k: &str) -> (r: String)
    ensures
        r@ == last_text_of_kind(cs@, k@),
{
    let mut i: usize = cs.len();
    assert(cs@.take(i as int) =~= cs@);
    while i > 0
        invariant
            i <= cs@.len(),
            last_text_of_kind(cs@, k@) == last_text_of_kind(cs@.take(i as int), k@),
        decreases i,
    {
        assert(cs@.take(i as int).drop_last() =~= cs@.take(i - 1));
        assert(cs@.take(i as int).last() == cs@[i - 1]);
        if kind_is(&cs[i - 1], k) {
            return text_or_empty(&cs[i - 1]);
        }
        i = i - 1;
    }
    String::new()
}

fn has_kind_exec(cs: &Vec<SyntaxNode>, k: &str) -> (r: bool)
    ensures
        r == has_kind(cs@, k@),
{
    let mut r = false;
    let mut i: usize = 0;
    while i < cs.len()
        invariant
            i <= cs@.len(),
            r == has_kind(cs@.take(i as int), k@),
        decreases cs@.len() - i,
    {
        assert(cs@.take(i + 1).drop_last() =~= cs@.take(i as int));
        r = kind_is(&cs[i], k) || r;
        i = i + 1;
    }
    assert(cs@.take(cs@.len() as int) =~= cs@);
    r
}

fn group_holds_exec(cs: &Vec<SyntaxNode>, group: &str, word: &str) -> (r: bool)
    ensures
        r == group_holds(cs@, group@, word@),
{
    let mut r = false;
    let mut i: usize = 0;
    while i < cs.len()
        invariant
            i <= cs@.len(),
            r == group_holds(cs@.take(i as int), group@, word@),
        decreases cs@.len() - i,
    {
        assert(cs@.take(i + 1).drop_last() =~= cs@.take(i as int));
        r = (kind_is(&cs[i], group) && has_kind_exec(&cs[i].children, word)) || r;
        i = i + 1;
    }
    assert(cs@.take(cs@.len() as int) =~= cs@);
    r
}

fn modified_by_exec(cs: &Vec<SyntaxNode>, group: &str, word: &str) -> (r: bool)
    ensures
        r == modified_by(cs@, group@, word@),
{
    let mut r = false;
    let mut i: usize = 0;
    while i < cs.len()
        invariant
            i <= cs@.len(),
            r == modified_by(cs@.take(i as int), group@, word@),
        decreases cs@.len() - i,
    {
        assert(cs@.take(i + 1).drop_last() =~= cs@.take(i as int));
        r = (kind_is(&cs[i], "modifiers") && group_holds_exec(&cs[i].children, group, word)) || r;
        i = i + 1;
    }
    assert(cs@.take(cs@.len() as int) =~= cs@);
    r
}

fn user_type_edges_exec(cs: &Vec<SyntaxNode>, from: &String, kind: EdgeKind, edges: &mut Vec<Edge>)
    ensures
        edges_v(final(edges)@) == edges_v(old(edges)@) + user_type_edges(cs@, from@, kind),
{
    let ghost e0 = edges_v(edges@);
    let mut i: usize = 0;
    while i < cs.len()
        invariant
            i <= cs@.len(),
            edges_v(edges@) == e0 + user_type_edges(cs@.take(i as int), from@, kind),
        decreases cs@.len() - i,
    {
        assert(cs@.take(i + 1).drop_last() =~= cs@.take(i as int));
        if kind_is(&cs[i], "user_type") {
            push_edge(edges, copy_string(from), text_or_empty(&cs[i]), kind);
        }
        i = i + 1;
        assert(edges_v(edges@) =~= e0 + user_type_edges(cs@.take(i as int), from@, kind));
    }
    assert(cs@.take(cs@.len() as int) =~= cs@);
}

fn specifier_edges_exec(cs: &Vec<SyntaxNode>, from: &String, is_interface: bool, edges: &mut Vec<Edge>)
    ensures
        edges_v(final(edges)@) == edges_v(old(edges)@) + specifier_edges(cs@, from@, is_interface),
{
    let ghost e0 = edges_v(edges@);
    let mut i: usize = 0;
    while i < cs.len()
        invariant
            i <= cs@.len(),
            edges_v(edges@) == e0 + specifier_edges(cs@.take(i as int), from@, is_interface),
        decreases cs@.len() - i,
    {
        assert(cs@.take(i + 1).drop_last() =~= cs@.take(i as int));
        let c = &cs[i];
        if kind_is(c, "constructor_invocation") {
            user_type_edges_exec(&c.children, from, EdgeKind::Inherits, edges);
        } else if kind_is(c, "user_type") {
            let kind = if is_interface { EdgeKind::Inherits } else { EdgeKind::Implements };
            push_edge(edges, copy_string(from), text_or_empty(c), kind);
        }
        i = i + 1;
        assert(edges_v(edges@) =~= e0 + specifier_edges(cs@.take(i as int), from@, is_interface));
    }
    assert(cs@.take(cs@.len() as int) =~= cs@);
}

fn delegation_edges_exec(cs: &Vec<SyntaxNode>, from: &String, is_interface: bool, edges: &mut Vec<Edge>)
    ensures
        edges_v(final(edges)@) == edges_v(old(edges)@) + delegation_edges(cs@, from@, is_interface),
{
    let ghost e0 = edges_v(edges@);
    let mut i: usize = 0;
    while i < cs.len()
        invariant
            i <= cs@.len(),
            edges_v(edges@) == e0 + delegation_edges(cs@.take(i as int), from@, is_interface),
        decreases cs@.len() - i,
    {
        assert(cs@.take(i + 1).drop_last() =~= cs@.take(i as int));
        if kind_is(&cs[i], "delegation_specifier") {
            specifier_edges_exec(&cs[i].children, from, is_interface, edges);
        }
        i = i + 1;
        assert(edges_v(edges@) =~= e0 + delegation_edges(cs@.take(i as int), from@, is_interface));
    }
    assert(cs@.take(cs@.len() as int) =~= cs@);
}

fn kt_visit_exec(n: &SyntaxNode, file: &String, path: &String, nodes: &mut Vec<Node>, edges: &mut Vec<Edge>)
    ensures
        (nodes_v(final(nodes)@), edges_v(final(edges)@))
            == kt_visit(*n, file@, path@, (nodes_v(old(nodes)@), edges_v(old(edges)@))),
    decreases n, 1int,
{
    let ghost st = (nodes_v(nodes@), edges_v(edges@));
    let cs = &n.children;
    proof {
        assert(decreases_to!(*n => n.children));
    }
    if kind_is(n, "import_header") {
        let t = last_text_of_kind_exec(cs, "identifier");
        if chars_of(t.as_str()).len() > 0 {
            push_edge(edges, copy_string(file), t, EdgeKind::Imports);
        }
    } else if kind_is(n, "class_declaration") {
        let name = last_text_of_kind_exec(cs, "type_identifier");
        if chars_of(name.as_str()).len() > 0 {
            let is_interface = has_kind_exec(cs, "interface");
            let mut label = copy_string(&name);
            if modified_by_exec(cs, "class_modifier", "data") {
                push_str(&mut label, "[data]");
            }
            push_node(nodes, Node {
                id: copy_string(&name),
                label,
                kind: if is_interface { NodeKind::Interface } else { NodeKind::Class },
                file_path: copy_string(path),
                line: line_from_row(n.row),
                is_public: true,
                parent_id: None,
            });
            delegation_edges_exec(cs, &name, is_interface, edges);
            assert(edges_v(edges@) =~= st.1 + delegation_edges(cs@, name@, is_interface));
            kt_bodies_exec(cs, file, path, nodes, edges);
        }
    } else if kind_is(n, "object_declaration") {
        let name = last_text_of_kind_exec(cs, "type_identifier");
        if chars_of(name.as_str()).len() > 0 {
            let mut label = copy_string(&name);
            push_str(&mut label, "[object]");
            push_node(nodes, Node {
                id: name,
                label,
                kind: NodeKind::Class,
                file_path: copy_string(path),
                line: line_from_row(n.row),
                is_public: true,
                parent_id: None,
            });
        }
        kt_bodies_exec(cs, file, path, nodes, edges);
    } else if kind_is(n, "function_declaration") {
        let name = last_text_of_kind_exec(cs, "simple_identifier");
        if chars_of(name.as_str()).len() > 0 {
            let is_async = modified_by_exec(cs, "function_modifier", "suspend");
            push_node(nodes, Node {
                id: copy_string(&name),
                label: name,
                kind: NodeKind::Function { is_async },
                file_path: copy_string(path),
                line: line_from_row(n.row),
                is_public: true,
                parent_id: None,
            });
        }
    } else if kind_is(n, "companion_object") {
        push_node(nodes, Node {
            id: to_owned_string("companion_object"),
            label: to_owned_string("Companion[object]"),
            kind: NodeKind::Class,
            file_path: copy_string(path),
            line: line_from_row(n.row),
            is_public: true,
            parent_id: None,
        });
        kt_visit_list_exec(cs, file, path, nodes, edges);
    } else if kind_is(n, "object_literal") || kind_is(n, "lambda_literal") || kind_is(n, "ERROR") {
    } else {
        kt_visit_list_exec(cs, file, path, nodes, edges);
    }
}

fn kt_visit_list_exec(cs: &Vec<SyntaxNode>, file: &String, path: &String, nodes: &mut Vec<Node>, edges: &mut Vec<Edge>)
    ensures
        (nodes_v(final(nodes)@), edges_v(final(edges)@))
            == kt_visit_list(cs@, file@, path@, (nodes_v(old(nodes)@), edges_v(old(edges)@))),
    decreases cs, 0int,
{
    let ghost st0 = (nodes_v(nodes@), edges_v(edges@));
    let mut i: usize = 0;
    while i < cs.len()
        invariant
            i <= cs@.len(),
            (nodes_v(nodes@), edges_v(edges@)) == kt_visit_list(cs@.take(i as int), file@, path@, st0),
        decreases cs@.len() - i,
    {
        assert(cs@.take(i + 1).drop_last() =~= cs@.take(i as int));
        assert(cs@.take(i + 1).last() == cs@[i as int]);
        proof {
            assert(decreases_to!(cs => cs@));
            assert(decreases_to!(cs@ => cs@[i as int]));
        }
        kt_visit_exec(&cs[i], file, path, nodes, edges);
        i = i + 1;
    }
    assert(cs@.take(cs@.len() as int) =~= cs@);
}

fn kt_bodies_exec(cs: &Vec<SyntaxNode>, file: &String, path: &String, nodes: &mut Vec<Node>, edges: &mut Vec<Edge>)
    ensures
        (nodes_v(final(nodes)@), edges_v(final(edges)@))
            == kt_bodies(cs@, file@, path@, (nodes_v(old(nodes)@), edges_v(old(edges)@))),
    decreases cs, 0int,
{
    let ghost st0 = (nodes_v(nodes@), edges_v(edges@));
    let mut i: usize = 0;
    while i < cs.len()
        invariant
            i <= cs@.len(),
            (nodes_v(nodes@), edges_v(edges@)) == kt_bodies(cs@.take(i as int), file@, path@, st0),
        decreases cs@.len() - i,
    {
        assert(cs@.take(i + 1).drop_last() =~= cs@.take(i as int));
        assert(cs@.take(i + 1).last() == cs@[i as int]);
        if kind_is(&cs[i], "class_body") {
            proof {
                assert(decreases_to!(cs => cs@));
                assert(decreases_to!(cs@ => cs@[i as int]));
                assert(decreases_to!(cs@[i as int] => cs@[i as int].children));
            }
            kt_visit_list_exec(&cs[i].children, file, path, nodes, edges);
        }
        i = i + 1;
    }
    assert(cs@.take(cs@.len() as int) =~= cs@);
}

/// Whether the graph is the one extracted from the Kotlin syntax tree of the file: what the
/// walk gathers, with the file's path as the metadata's source root.
pub open spec fn is_kotlin_graph(g: CodeGraph, root: SyntaxNode, file: Seq<char>) -> bool {
    let path = file.map_values(|c: char| forward_slash(c));
    let st = kt_visit(root, file, path, (seq![], seq![]));
    &&& g.nv() == st.0
    &&& g.ev() == st.1
    &&& g.control_flow@.len() == 0
    &&& g.meta.language@ == "kotlin"@
    &&& g.meta.source_root@ == file
    &&& g.meta.generated_at@ == Seq::<char>::empty()
    &&& g.meta.node_count == g.nodes@.len()
    &&& g.meta.edge_count == g.edges@.len()
}

/// Extracts the graph of a Kotlin file from its syntax tree.
pub fn extract_kotlin(root: &SyntaxNode, file_path: &str) -> (g: CodeGraph)
    ensures
        is_kotlin_graph(g, *root, file_path@),
{
    let file = to_owned_string(file_path);
    let path = normalize_path(file_path);
    let mut nodes: Vec<Node> = Vec::new();
    let mut edges: Vec<Edge> = Vec::new();
    assert(nodes_v(nodes@) =~= Seq::<NodeV>::empty());
    assert(edges_v(edges@) =~= Seq::<EdgeV>::empty());
    kt_visit_exec(root, &file, &path, &mut nodes, &mut edges);
    let meta = GraphMeta {
        language: to_owned_string("kotlin"),
        source_root: copy_string(&file),
        generated_at: String::new(),
        node_count: nodes.len(),
        edge_count: edges.len(),
    };
    CodeGraph { nodes, edges, control_flow: Vec::new(), meta }
}

/// Whether the error is one that the Kotlin parser gives for the file: the grammar was
/// A parser for the Kotlin programming language.
pub struct KotlinParser;

impl KotlinParser {
    /// Creates a new parser.
    pub fn new() -> Self {
        KotlinParser
    }
}

impl Default for KotlinParser {
    fn default() -> Self {
        KotlinParser
    }
}

impl LanguageParser for KotlinParser {
    open spec fn claimed_extensions(&self) -> Seq<Seq<char>> {
        seq!["kt"@, "kts"@]
    }

    open spec fn parses_to(&self, source: Seq<char>, file_path: Seq<char>, r: Result<CodeGraph, ParseError>) -> bool {
        &&& r is Ok
        &&& r matches Ok(g) ==> exists|t: SyntaxNode| tree_of_source(t, KOTLIN_GRAMMAR, source)
            && #[trigger] is_kotlin_graph(g, t, file_path)
    }

    fn language_name(&self) -> (r: &str)
        ensures
            r@ == "Kotlin"@,
    {
        "Kotlin"
    }

    fn supported_extensions(&self) -> (r: &[&str])
        ensures
            r@.map_values(|e: &str| e@) == seq!["kt"@, "kts"@],
    {
        let r: &[&str] = &["kt", "kts"];
        assert(r@.map_values(|e: &str| e@) =~= seq!["kt"@, "kts"@]);
        r
    }

    fn parse(&self, source: &str, file_path: &str) -> (r: Result<CodeGraph, ParseError>)
        ensures
            r is Ok,
            r matches Ok(g) ==> exists|t: SyntaxNode| tree_of_source(t, KOTLIN_GRAMMAR, source@)
                && #[trigger] is_kotlin_graph(g, t, file_path@),
    {
        let grammar = kotlin_grammar();
        match parse_syntax(&grammar, source) {
            Ok(root) => {
                let g = extract_kotlin(&root, file_path);
                let r: Result<CodeGraph, ParseError> = Ok(g);
                assert(is_kotlin_graph(r->Ok_0, root, file_path@));
                r
            },
            Err(why) => {
                let mut message = to_owned_string("Failed to set Kotlin language: ");
                push_str(&mut message, why.as_str());
                Err(ParseError { message, file_path: to_owned_string(file_path), line: None })
            },
        }
    }
}

} // verus!
