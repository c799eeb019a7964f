//! The Java extractor: imports, classes, interfaces, their supertypes, and methods.

use vstd::prelude::*;
use crate::extract::{edge_v, fresh_meta, last_segment, last_segment_exec, line_from_row, line_of, make_symbol_id, new_meta, symbol_id, symbol_node};
use crate::go::parse_failure;
use crate::ir::{CodeGraph, Edge, EdgeKind, EdgeV, Node, NodeKind, NodeV, edges_v, nodes_v};
use crate::order::{join, join_texts};
use crate::parser::{LanguageParser, ParseError};
use crate::syntax::{JAVA_GRAMMAR, SyntaxNode, child_by_field, field_child, java_grammar, kind_is, parse_syntax, text_of, tree_of_source};
use crate::text::{chars_of, copy_string, push_str, to_owned_string};

verus! {

/// The annotations among modifiers, each in brackets.
pub open spec fn java_annotations(cs: Seq<SyntaxNode>) -> Seq<Seq<char>>
    decreases cs.len(),
{
    if cs.len() == 0 {
        seq![]
    } else {
        let c = cs.last();
        java_annotations(cs.drop_last()) + match c.text {
            Some(t) => if t@.len() > 0 && t@[0] == '@' { seq!["["@ + t@ + "]"@] } else { seq![] },
            None => seq![],
        }
    }
}

/// Whether a node's text reads `public`.
pub open spec fn reads_public(c: SyntaxNode) -> bool {
    c.text matches Some(t) && t@ == "public"@
}

/// Whether a modifier reads `public`.
pub open spec fn java_public(cs: Seq<SyntaxNode>) -> bool {
    exists|i: int| 0 <= i < cs.len() && #[trigger] reads_public(cs[i])
}

/// The modifiers of a declaration.
pub open spec fn modifiers_of(n: SyntaxNode) -> Seq<SyntaxNode> {
    match field_child(n, "modifiers"@) { Some(m) => m.children@, None => seq![] }
}

/// The label of a declaration: its name, then its annotations.
pub open spec fn java_label(name: Seq<char>, annotations: Seq<Seq<char>>) -> Seq<char> {
    if annotations.len() == 0 { name } else { name + " "@ + join(annotations, " "@) }
}

/// Edges to the type identifiers among the children, from `id`, of the kind given.
pub open spec fn java_type_edges(cs: Seq<SyntaxNode>, id: Seq<char>, file: Seq<char>, kind: EdgeKind) -> Seq<EdgeV>
    decreases cs.len(),
{
    if cs.len() == 0 {
        seq![]
    } else {
        let c = cs.last();
        java_type_edges(cs.drop_last(), id, file, kind) + if c.kind@ == "type_identifier"@ && c.text is Some {
            seq![edge_v(id, symbol_id(file, text_of(c)), kind)]
        } else {
            seq![]
        }
    }
}

/// Edges to the type identifiers of the type lists among the children.
pub open spec fn java_list_edges(cs: Seq<SyntaxNode>, id: Seq<char>, file: Seq<char>, kind: EdgeKind) -> Seq<EdgeV>
    decreases cs.len(),
{
    if cs.len() == 0 {
        seq![]
    } else {
        let c = cs.last();
        java_list_edges(cs.drop_last(), id, file, kind) + if c.kind@ == "type_list"@ {
            java_type_edges(c.children@, id, file, kind)
        } else {
            seq![]
        }
    }
}

/// The last readable identifier among an import's children, or nothing.
pub open spec fn java_import_path(cs: Seq<SyntaxNode>) -> Seq<char>
    decreases cs.len(),
{
    if cs.len() == 0 {
        Seq::empty()
    } else {
        let c = cs.last();
        if (c.kind@ == "scoped_identifier"@ || c.kind@ == "identifier"@) && c.text is Some {
            text_of(c)
        } else {
            java_import_path(cs.drop_last())
        }
    }
}

/// What one declaration adds.
pub open spec fn java_item(n: SyntaxNode, file: Seq<char>) -> (Seq<NodeV>, Seq<EdgeV>) {
    let k = n.kind@;
    if k == "import_declaration"@ {
        let p = java_import_path(n.children@);
        if p.len() > 0 { (seq![], seq![edge_v(file, p, EdgeKind::Imports)]) } else { (seq![], seq![]) }
    } else if k == "class_declaration"@ || k == "interface_declaration"@ {
        let is_class = k == "class_declaration"@;
        match field_child(n, "name"@) {
            Some(name) => match name.text {
                Some(t) => {
                    let id = symbol_id(file, t@);
                    let label = java_label(t@, java_annotations(modifiers_of(n)));
                    let node = symbol_node(id, label, if is_class { NodeKind::Class } else { NodeKind::Interface }, file,
                        line_of(name.row), true, None);
                    let supers = if is_class {
                        match field_child(n, "superclass"@) { Some(s) => java_type_edges(s.children@, id, file, EdgeKind::Inherits), None => seq![] }
                    } else {
                        seq![]
                    };
                    let lists = match field_child(n, "interfaces"@) {
                        Some(s) => java_list_edges(s.children@, id, file, if is_class { EdgeKind::Implements } else { EdgeKind::Inherits }),
                        None => seq![],
                    };
                    (seq![node], supers + lists)
                },
                None => (seq![], seq![]),
            },
            None => (seq![], seq![]),
        }
    } else if k == "method_declaration"@ && field_child(n, "body"@) is Some {
        match field_child(n, "name"@) {
            Some(name) => match name.text {
                Some(t) => {
                    let mods = modifiers_of(n);
                    (seq![symbol_node(symbol_id(file, t@), java_label(t@, java_annotations(mods)), NodeKind::Function { is_async: false },
                        file, line_of(name.row), java_public(mods) || t@ == "main"@, None)], seq![])
                },
                None => (seq![], seq![]),
            },
            None => (seq![], seq![]),
        }
    } else {
        (seq![], seq![])
    }
}

/// Visits a node: its declaration first, then its children from the last to the first.
pub open spec fn java_visit(n: SyntaxNode, file: Seq<char>, st: (Seq<NodeV>, Seq<EdgeV>)) -> (Seq<NodeV>, Seq<EdgeV>)
    decreases n,
{
    let it = java_item(n, file);
    java_visit_back(n.children@, file, (st.0 + it.0, st.1 + it.1))
}

/// Visits the nodes from the last to the first.
pub open spec fn java_visit_back(cs: Seq<SyntaxNode>, file: Seq<char>, st: (Seq<NodeV>, Seq<EdgeV>)) -> (Seq<NodeV>, Seq<EdgeV>)
    decreases cs,
{
    if cs.len() == 0 {
        st
    } else {
        java_visit_back(cs.drop_last(), file, java_visit(cs.last(), file, st))
    }
}

fn push_edge(edges: &mut Vec<Edge>, from: String, to: String, kind: EdgeKind)
    ensures
        edges_v(final(edges)@) == edges_v(old(edges)@).push(edge_v(from@, to@, kind)),
{
    edges.push(Edge { from_id: from, to_id: to, kind });
    assert(edges_v(edges@) =~= edges_v(old(edges)@).push(edge_v(from@, to@, kind)));
}

fn push_node(nodes: &mut Vec<Node>, n: Node)
    ensures
        nodes_v(final(nodes)@) == nodes_v(old(nodes)@).push(n@),
{
    nodes.push(n);
    assert(nodes_v(nodes@) =~= nodes_v(old(nodes)@).push(n@));
}

fn java_annotations_exec(n: &SyntaxNode) -> (r: Vec<String>)
    ensures
        r.deep_view() == java_annotations(modifiers_of(*n)),
{
    let mut r: Vec<String> = Vec::new();
    match child_by_field(n, "modifiers") {
        Some(m) => {
            let cs = &m.children;
            let mut i: usize = 0;
            while i < cs.len()
                invariant
                    i <= cs@.len(),
                    r.deep_view() == java_annotations(cs@.take(i as int)),
                decreases cs@.len() - i,
            {
                assert(cs@.take(i + 1).drop_last() =~= cs@.take(i as int));
                let ghost r0 = r.deep_view();
                match &cs[i].text {
                    Some(t) => {
                        let tv = chars_of(t.as_str());
                        if tv.len() > 0 && tv[0] == '@' {
                            let mut a = to_owned_string("[");
                            push_str(&mut a, t.as_str());
                            push_str(&mut a, "]");
                            r.push(a);
                            assert(r.deep_view() =~= r0.push("["@ + t@ + "]"@));
                        }
                    },
                    None => {},
                }
                i = i + 1;
                assert(r.deep_view() =~= java_annotations(cs@.take(i as int)));
            }
            assert(cs@.take(cs@.len() as int) =~= cs@);
        },
        None => {
            assert(r.deep_view() =~= Seq::<Seq<char>>::empty());
        },
    }
    r
}

fn java_public_exec(n: &SyntaxNode) -> (r: bool)
    ensures
        r == java_public(modifiers_of(*n)),
{
    match child_by_field(n, "modifiers") {
        Some(m) => {
            let cs = &m.children;
            let public = to_owned_string("public");
            let mut i: usize = 0;
            while i < cs.len()
                invariant
                    i <= cs@.len(),
                    public@ == "public"@,
                    cs@ == modifiers_of(*n),
                    forall|j: int| 0 <= j < i ==> !#[trigger] reads_public(cs@[j]),
                decreases cs@.len() - i,
            {
                match &cs[i].text {
                    Some(t) => {
                        if t.eq(&public) {
                            assert(reads_public(cs@[i as int]));
                            return true;
                        }
                    },
                    None => {},
                }
                i = i + 1;
            }
            false
        },
        None => false,
    }
}

fn java_label_exec(name: &String, annotations: &Vec<String>) -> (r: String)
    ensures
        r@ == java_label(name@, annotations.deep_view()),
{
    if annotations.len() == 0 {
        copy_string(name)
    } else {
        let mut l = copy_string(name);
        push_str(&mut l, " ");
        let j = join_texts(annotations, " ");
        push_str(&mut l, j.as_str());
        l
    }
}

fn java_type_edges_exec(cs: &Vec<SyntaxNode>, id: &String, file: &String, kind: EdgeKind, edges: &mut Vec<Edge>)
    ensures
        edges_v(final(edges)@) == edges_v(old(edges)@) + java_type_edges(cs@, id@, file@, kind),
{
    let ghost e0 = edges_v(edges@);
    let mut i: usize = 0;
    while i < cs.len()
        invariant
            i <= cs@.len(),
            edges_v(edges@) == e0 + java_type_edges(cs@.take(i as int), id@, file@, kind),
        decreases cs@.len() - i,
    {
        assert(cs@.take(i + 1).drop_last() =~= cs@.take(i as int));
        let c = &cs[i];
        if kind_is(c, "type_identifier") {
            match &c.text {
                Some(t) => push_edge(edges, copy_string(id), make_symbol_id(file, t), kind),
                None => {},
            }
        }
        i = i + 1;
        assert(edges_v(edges@) =~= e0 + java_type_edges(cs@.take(i as int), id@, file@, kind));
    }
    assert(cs@.take(cs@.len() as int) =~= cs@);
}

fn java_list_edges_exec(cs: &Vec<SyntaxNode>, id: &String, file: &String, kind: EdgeKind, edges: &mut Vec<Edge>)
    ensures
        edges_v(final(edges)@) == edges_v(old(edges)@) + java_list_edges(cs@, id@, file@, kind),
{
    let ghost e0 = edges_v(edges@);
    let mut i: usize = 0;
    while i < cs.len()
        invariant
            i <= cs@.len(),
            edges_v(edges@) == e0 + java_list_edges(cs@.take(i as int), id@, file@, kind),
        decreases cs@.len() - i,
    {
        assert(cs@.take(i + 1).drop_last() =~= cs@.take(i as int));
        if kind_is(&cs[i], "type_list") {
            java_type_edges_exec(&cs[i].children, id, file, kind, edges);
        }
        i = i + 1;
        assert(edges_v(edges@) =~= e0 + java_list_edges(cs@.take(i as int), id@, file@, kind));
    }
    assert(cs@.take(cs@.len() as int) =~= cs@);
}

fn java_import_path_exec(cs: &Vec<SyntaxNode>) -> (r: String)
    ensures
        r@ == java_import_path(cs@),
{
    let mut i: usize = cs.len();
    assert(cs@.take(i as int) =~= cs@);
    while i > 0
        invariant
            i <= cs@.len(),
            java_import_path(cs@) == java_import_path(cs@.take(i as int)),
        decreases i,
    {
        assert(cs@.take(i as int).drop_last() =~= cs@.take(i - 1));
        assert(cs@.take(i as int).last() == cs@[i - 1]);
        let c = &cs[i - 1];
        if kind_is(c, "scoped_identifier") || kind_is(c, "identifier") {
            match &c.text {
                Some(t) => {
                    return copy_string(t);
                },
                None => {},
            }
        }
        i = i - 1;
    }
    String::new()
}

fn java_item_exec(n: &SyntaxNode, file: &String, nodes: &mut Vec<Node>, edges: &mut Vec<Edge>)
    ensures
        nodes_v(final(nodes)@) == nodes_v(old(nodes)@) + java_item(*n, file@).0,
        edges_v(final(edges)@) == edges_v(old(edges)@) + java_item(*n, file@).1,
{
    let ghost n0 = nodes_v(nodes@);
    let ghost e0 = edges_v(edges@);
    let ghost it = java_item(*n, file@);
    proof {
        reveal_strlit("main");
    }
    if kind_is(n, "import_declaration") {
        let p = java_import_path_exec(&n.children);
        let pv = chars_of(p.as_str());
        if pv.len() > 0 {
            push_edge(edges, copy_string(file), p, EdgeKind::Imports);
        }
    } else if kind_is(n, "class_declaration") || kind_is(n, "interface_declaration") {
        let is_class = kind_is(n, "class_declaration");
        match child_by_field(n, "name") {
            Some(name) => match &name.text {
                Some(t) => {
                    let id = make_symbol_id(file, t);
                    let anns = java_annotations_exec(n);
                    push_node(nodes, Node {
                        id: copy_string(&id),
                        label: java_label_exec(t, &anns),
                        kind: if is_class { NodeKind::Class } else { NodeKind::Interface },
                        file_path: copy_string(file),
                        line: line_from_row(name.row),
                        is_public: true,
                        parent_id: None,
                    });
                    let ghost e1 = edges_v(edges@);
                    if is_class {
                        match child_by_field(n, "superclass") {
                            Some(s) => java_type_edges_exec(&s.children, &id, file, EdgeKind::Inherits, edges),
                            None => {},
                        }
                    }
                    match child_by_field(n, "interfaces") {
                        Some(s) => java_list_edges_exec(&s.children, &id, file,
                            if is_class { EdgeKind::Implements } else { EdgeKind::Inherits }, edges),
                        None => {},
                    }
                },
                None => {},
            },
            None => {},
        }
    } else if kind_is(n, "method_declaration") && child_by_field(n, "body").is_some() {
        match child_by_field(n, "name") {
            Some(name) => match &name.text {
                Some(t) => {
                    let anns = java_annotations_exec(n);
                    let public = java_public_exec(n) || t.eq(&to_owned_string("main"));
                    push_node(nodes, Node {
                        id: make_symbol_id(file, t),
                        label: java_label_exec(t, &anns),
                        kind: NodeKind::Function { is_async: false },
                        file_path: copy_string(file),
                        line: line_from_row(name.row),
                        is_public: public,
                        parent_id: None,
                    });
                },
                None => {},
            },
            None => {},
        }
    }
    assert(nodes_v(nodes@) =~= n0 + it.0);
    assert(edges_v(edges@) =~= e0 + it.1);
}

fn java_visit_exec(n: &SyntaxNode, file: &String, nodes: &mut Vec<Node>, edges: &mut Vec<Edge>)
    ensures
        (nodes_v(final(nodes)@), edges_v(final(edges)@)) == java_visit(*n, file@, (nodes_v(old(nodes)@), edges_v(old(edges)@))),
    decreases n,
{
    java_item_exec(n, file, nodes, edges);
    proof {
        assert(decreases_to!(*n => n.children));
    }
    java_visit_back_exec(&n.children, file, nodes, edges);
}

fn java_visit_back_exec(cs: &Vec<SyntaxNode>, file: &String, nodes: &mut Vec<Node>, edges: &mut Vec<Edge>)
    ensures
        (nodes_v(final(nodes)@), edges_v(final(edges)@)) == java_visit_back(cs@, file@, (nodes_v(old(nodes)@), edges_v(old(edges)@))),
    decreases cs,
{
    let ghost st0 = (nodes_v(nodes@), edges_v(edges@));
    let mut i: usize = cs.len();
    assert(cs@.take(i as int) =~= cs@);
    while i > 0
        invariant
            i <= cs@.len(),
            java_visit_back(cs@, file@, st0) == java_visit_back(cs@.take(i as int), file@, (nodes_v(nodes@), edges_v(edges@))),
        decreases i,
    {
        assert(cs@.take(i as int).drop_last() =~= cs@.take(i - 1));
        assert(cs@.take(i as int).last() == cs@[i - 1]);
        proof {
            assert(decreases_to!(cs => cs@));
            assert(decreases_to!(cs@ => cs@[i - 1]));
        }
        java_visit_exec(&cs[i - 1], file, nodes, edges);
        i = i - 1;
    }
}

/// Whether the graph is the one extracted from the Java syntax tree of the file (its path
/// is used as given): the file node, then what the walk gathers.
pub open spec fn is_java_graph(g: CodeGraph, root: SyntaxNode, file: Seq<char>) -> bool {
    let file_node = symbol_node(file, last_segment(file), NodeKind::File, file, None, true, None);
    let st = java_visit(root, file, (seq![file_node], seq![]));
    &&& g.nv() == st.0
    &&& g.ev() == st.1
    &&& g.control_flow@.len() == 0
    &&& fresh_meta(g.meta, "java"@, g.nodes@.len(), g.edges@.len())
}

/// Extracts the graph of a Java file from its syntax tree.
pub fn extract_java(root: &SyntaxNode, file_path: &str) -> (g: CodeGraph)
    ensures
        is_java_graph(g, *root, file_path@),
{
    let file = to_owned_string(file_path);
    let mut nodes: Vec<Node> = Vec::new();
    let mut edges: Vec<Edge> = Vec::new();
    push_node(&mut nodes, Node {
        id: copy_string(&file),
        label: last_segment_exec(&file),
        kind: NodeKind::File,
        file_path: copy_string(&file),
        line: None,
        is_public: true,
        parent_id: None,
    });
    assert(edges_v(edges@) =~= Seq::<EdgeV>::empty());
    assert(nodes_v(nodes@) =~= seq![symbol_node(file@, last_segment(file@), NodeKind::File, file@, None, true, None)]);
    java_visit_exec(root, &file, &mut nodes, &mut edges);
    let mut meta = new_meta("java");
    meta.node_count = nodes.len();
    meta.edge_count = edges.len();
    CodeGraph { nodes, edges, control_flow: Vec::new(), meta }
}

/// A parser for the Java programming language.
pub struct JavaParser;

impl JavaParser {
    /// Creates a new parser.
    pub fn new() -> Self {
        JavaParser
    }
}

impl Default for JavaParser {
    fn default() -> Self {
        JavaParser
    }
}

impl LanguageParser for JavaParser {
    open spec fn claimed_extensions(&self) -> Seq<Seq<char>> {
        seq!["java"@]
    }

    open spec fn parses_to(&self, source: Seq<char>, file_path: Seq<char>, r: Result<CodeGraph, ParseError>) -> bool {
        &&& r is Ok
        &&& r matches Ok(g) ==> exists|t: SyntaxNode| tree_of_source(t, JAVA_GRAMMAR, source)
            && #[trigger] is_java_graph(g, t, file_path)
    }

    fn language_name(&self) -> (r: &str)
        ensures
            r@ == "java"@,
    {
        "java"
    }

    fn supported_extensions(&self) -> (r: &[&str])
        ensures
            r@.map_values(|e: &str| e@) == seq!["java"@],
    {
        let r: &[&str] = &["java"];
        assert(r@.map_values(|e: &str| e@) =~= seq!["java"@]);
        r
    }

    fn parse(&self, source: &str, file_path: &str) -> (r: Result<CodeGraph, ParseError>)
        ensures
            r is Ok,
            r matches Ok(g) ==> exists|t: SyntaxNode| tree_of_source(t, JAVA_GRAMMAR, source@)
                && #[trigger] is_java_graph(g, t, file_path@),
    {
        let grammar = java_grammar();
        match parse_syntax(&grammar, source) {
            Ok(root) => {
                let g = extract_java(&root, file_path);
                let r: Result<CodeGraph, ParseError> = Ok(g);
                assert(is_java_graph(r->Ok_0, root, file_path@));
                r
            },
            Err(_) => Err(parse_failure("Java", file_path)),
        }
    }
}

} // verus!
