//! Graphs from a syntax tree handed over as plain data (as a browser-side tree-sitter
//! produces it): functions and classes with their scopes, bases, calls and JSX uses.

use vstd::prelude::*;
use crate::extract::{edge_v, last_segment, last_segment_exec, make_symbol_id, symbol_id};
use crate::ir::{CodeGraph, Edge, EdgeKind, EdgeV, GraphMeta, Node, NodeKind, NodeV, edges_v, nodes_v, opt_view};
use crate::cli::diagram_of;
use crate::render::DiagramKind;
use crate::text::{chars_of, copy_string, push_str, same_text, to_owned_string};

verus! {

/// A position in the source: row and column, from zero.
pub struct Position {
    pub row: u32,
    pub column: u32,
}

/// A node of the handed-over tree: its type, its text, where it starts and ends, and its
/// children in order.
pub struct TsNode {
    pub node_type: String,
    pub text: String,
    pub start_position: Position,
    pub end_position: Position,
    pub children: Vec<TsNode>,
}

/// Whether a node's type is one of the identifier types.
pub open spec fn is_ident(n: TsNode) -> bool {
    n.node_type@ == "identifier"@ || n.node_type@ == "property_identifier"@ || n.node_type@ == "type_identifier"@
}

/// Whether a node declares a function: a function or method, an arrow function, or a
/// variable declarator that holds one.
pub open spec fn declares_function(n: TsNode) -> bool {
    let t = n.node_type@;
    t == "function_definition"@ || t == "function_declaration"@ || t == "method_definition"@ || t == "arrow_function"@
        || (t == "variable_declarator"@ && exists|i: int| 0 <= i < n.children@.len()
            && #[trigger] n.children@[i].node_type@ == "arrow_function"@)
}

/// Whether a node declares a class.
pub open spec fn declares_class(n: TsNode) -> bool {
    n.node_type@ == "class_definition"@ || n.node_type@ == "class_declaration"@
}

/// Whether a node is a call, or a JSX element that uses a component.
pub open spec fn is_call(n: TsNode) -> bool {
    let t = n.node_type@;
    t == "call_expression"@ || t == "call"@ || t == "jsx_self_closing_element"@ || t == "jsx_opening_element"@
}

/// Whether a node is a JSX element: its type starts with `jsx`.
pub open spec fn is_jsx(n: TsNode) -> bool {
    n.node_type@.len() >= 3 && n.node_type@.take(3) == "jsx"@
}

/// The position of the first identifier among the nodes, if any.
pub open spec fn first_ident(cs: Seq<TsNode>) -> Option<int>
    decreases cs.len(),
{
    if cs.len() == 0 {
        None
    } else {
        match first_ident(cs.drop_last()) {
            Some(i) => Some(i),
            None => if is_ident(cs.last()) { Some(cs.len() - 1) } else { None },
        }
    }
}

/// The identifiers in the subtree, in preorder.
pub open spec fn idents_in(n: TsNode) -> Seq<Seq<char>>
    decreases n,
{
    (if is_ident(n) { seq![n.text@] } else { seq![] }) + idents_among(n.children@)
}

/// The identifiers in the subtrees, in preorder.
pub open spec fn idents_among(cs: Seq<TsNode>) -> Seq<Seq<char>>
    decreases cs,
{
    if cs.len() == 0 { seq![] } else { idents_among(cs.drop_last()) + idents_in(cs.last()) }
}

/// Inherits edges from `id` to each identifier under the base lists among the children.
pub open spec fn base_edges(cs: Seq<TsNode>, id: Seq<char>, file: Seq<char>) -> Seq<EdgeV>
    decreases cs.len(),
{
    if cs.len() == 0 {
        seq![]
    } else {
        let c = cs.last();
        base_edges(cs.drop_last(), id, file) + if c.node_type@ == "argument_list"@ || c.node_type@ == "class_heritage"@ {
            idents_in(c).map_values(|b: Seq<char>| edge_v(id, symbol_id(file, b), EdgeKind::Inherits))
        } else {
            seq![]
        }
    }
}

/// The name a call targets, read from its children: the last identifier of the last member
/// access or attribute that has one, else the first plain identifier.
pub open spec fn call_target(cs: Seq<TsNode>) -> Option<Seq<char>>
    decreases cs.len(),
{
    if cs.len() == 0 {
        None
    } else {
        let t = call_target(cs.drop_last());
        let c = cs.last();
        if c.node_type@ == "attribute"@ || c.node_type@ == "member_expression"@ {
            let ids = idents_in(c);
            if ids.len() > 0 { Some(ids.last()) } else { t }
        } else if (c.node_type@ == "identifier"@ || c.node_type@ == "property_identifier"@) && t is None {
            Some(c.text@)
        } else {
            t
        }
    }
}

/// The target of a call or JSX use: for JSX, the first identifier in the subtree.
pub open spec fn use_target(n: TsNode) -> Option<Seq<char>> {
    if is_jsx(n) {
        let ids = idents_in(n);
        if ids.len() > 0 { Some(ids[0]) } else { None }
    } else {
        call_target(n.children@)
    }
}

/// What one node adds in the scope: a function or class (with its scope edge and, for a
/// class, its bases), or a call edge from the scope; and the scope for its children.
pub open spec fn ast_item(n: TsNode, file: Seq<char>, scope: Option<Seq<char>>, st: (Seq<NodeV>, Seq<EdgeV>))
    -> ((Seq<NodeV>, Seq<EdgeV>), Option<Seq<char>>)
{
    let is_fn = declares_function(n);
    let is_class = declares_class(n);
    if is_fn || is_class {
        match first_ident(n.children@) {
            Some(i) => {
                let name = n.children@[i].text@;
                let id = symbol_id(file, name);
                let node = NodeV {
                    id,
                    label: name,
                    kind: if is_fn { NodeKind::Function { is_async: false } } else { NodeKind::Class },
                    file_path: file,
                    line: Some((n.start_position.row + 1) as u32),
                    is_public: true,
                    parent_id: scope,
                };
                let contains = match scope { Some(p) => seq![edge_v(p, id, EdgeKind::Contains)], None => seq![] };
                let bases = if is_class { base_edges(n.children@, id, file) } else { seq![] };
                ((st.0.push(node), st.1 + contains + bases), Some(id))
            },
            None => (st, scope),
        }
    } else if is_call(n) && scope is Some {
        match use_target(n) {
            Some(name) => {
                let kind = if is_jsx(n) { EdgeKind::Instantiates } else { EdgeKind::Calls };
                ((st.0, st.1.push(edge_v(scope->0, symbol_id(file, name), kind))), scope)
            },
            None => (st, scope),
        }
    } else {
        (st, scope)
    }
}

/// Visits a node: what it adds, then its children in order, in the scope it opens.
pub open spec fn ast_visit(n: TsNode, file: Seq<char>, scope: Option<Seq<char>>, st: (Seq<NodeV>, Seq<EdgeV>)) -> (Seq<NodeV>, Seq<EdgeV>)
    decreases n,
{
    let r = ast_item(n, file, scope, st);
    ast_visit_list(n.children@, file, r.1, r.0)
}

/// Visits the nodes in order.
pub open spec fn ast_visit_list(cs: Seq<TsNode>, file: Seq<char>, scope: Option<Seq<char>>, st: (Seq<NodeV>, Seq<EdgeV>)) -> (Seq<NodeV>, Seq<EdgeV>)
    decreases cs,
{
    if cs.len() == 0 { st } else { ast_visit(cs.last(), file, scope, ast_visit_list(cs.drop_last(), file, scope, st)) }
}

/// Whether the id names a symbol of the file: the file's path, `::` and a name.
pub open spec fn in_file(id: Seq<char>, file: Seq<char>) -> bool {
    exists|name: Seq<char>| id == #[trigger] symbol_id(file, name)
}

/// Whether the node is one the walk records: a public function or class of the file,
/// whose id is the file's path, `::` and its label.
pub open spec fn ast_symbol(n: NodeV, file: Seq<char>) -> bool {
    &&& n.id == symbol_id(file, n.label)
    &&& n.file_path == file
    &&& n.is_public
    &&& (n.kind == NodeKind::Function { is_async: false } || n.kind == NodeKind::Class)
}

/// Whether `after` keeps the nodes and edges of `before` as prefixes, and each node it
/// adds is a recorded symbol of the file and each edge it adds leads to a symbol of the
/// file.
pub open spec fn ast_grows(before: (Seq<NodeV>, Seq<EdgeV>), after: (Seq<NodeV>, Seq<EdgeV>), file: Seq<char>) -> bool {
    &&& before.0.len() <= after.0.len()
    &&& after.0.take(before.0.len() as int) == before.0
    &&& before.1.len() <= after.1.len()
    &&& after.1.take(before.1.len() as int) == before.1
    &&& forall|k: int| before.0.len() <= k < after.0.len() ==> ast_symbol(#[trigger] after.0[k], file)
    &&& forall|k: int| before.1.len() <= k < after.1.len() ==> in_file((#[trigger] after.1[k]).to, file)
}

proof fn lemma_grows_trans(a: (Seq<NodeV>, Seq<EdgeV>), b: (Seq<NodeV>, Seq<EdgeV>), c: (Seq<NodeV>, Seq<EdgeV>),
    file: Seq<char>)
    requires
        ast_grows(a, b, file),
        ast_grows(b, c, file),
    ensures
        ast_grows(a, c, file),
{
    assert(c.0.take(a.0.len() as int) =~= c.0.take(b.0.len() as int).take(a.0.len() as int));
    assert(c.1.take(a.1.len() as int) =~= c.1.take(b.1.len() as int).take(a.1.len() as int));
    assert forall|k: int| a.0.len() <= k < c.0.len() implies ast_symbol(#[trigger] c.0[k], file) by {
        if k < b.0.len() {
            assert(c.0[k] == c.0.take(b.0.len() as int)[k]);
        }
    }
    assert forall|k: int| a.1.len() <= k < c.1.len() implies in_file((#[trigger] c.1[k]).to, file) by {
        if k < b.1.len() {
            assert(c.1[k] == c.1.take(b.1.len() as int)[k]);
        }
    }
}

proof fn lemma_base_edges_in_file(cs: Seq<TsNode>, id: Seq<char>, file: Seq<char>)
    ensures
        forall|k: int| 0 <= k < base_edges(cs, id, file).len() ==> in_file((#[trigger] base_edges(cs, id, file)[k]).to, file),
    decreases cs.len(),
{
    if cs.len() > 0 {
        lemma_base_edges_in_file(cs.drop_last(), id, file);
        let front = base_edges(cs.drop_last(), id, file);
        let c = cs.last();
        let more = if c.node_type@ == "argument_list"@ || c.node_type@ == "class_heritage"@ {
            idents_in(c).map_values(|b: Seq<char>| edge_v(id, symbol_id(file, b), EdgeKind::Inherits))
        } else {
            seq![]
        };
        assert(base_edges(cs, id, file) == front + more);
        assert forall|k: int| 0 <= k < base_edges(cs, id, file).len() implies in_file((#[trigger] base_edges(cs, id, file)[k]).to, file) by {
            if k >= front.len() {
                let b = idents_in(c)[k - front.len()];
                assert(base_edges(cs, id, file)[k] == more[k - front.len()]);
                assert(base_edges(cs, id, file)[k].to == symbol_id(file, b));
            } else {
                assert(base_edges(cs, id, file)[k] == front[k]);
            }
        }
    }
}

proof fn lemma_item_grows(n: TsNode, file: Seq<char>, scope: Option<Seq<char>>, st: (Seq<NodeV>, Seq<EdgeV>))
    ensures
        ast_grows(st, ast_item(n, file, scope, st).0, file),
{
    let r = ast_item(n, file, scope, st).0;
    if declares_function(n) || declares_class(n) {
        match first_ident(n.children@) {
            Some(i) => {
                let name = n.children@[i].text@;
                let id = symbol_id(file, name);
                let contains = match scope { Some(p) => seq![edge_v(p, id, EdgeKind::Contains)], None => seq![] };
                let bases = if declares_class(n) { base_edges(n.children@, id, file) } else { seq![] };
                lemma_base_edges_in_file(n.children@, id, file);
                assert(r.1 == st.1 + contains + bases);
                assert(r.0.take(st.0.len() as int) =~= st.0);
                assert(r.1.take(st.1.len() as int) =~= st.1);
                assert forall|k: int| st.1.len() <= k < r.1.len() implies in_file((#[trigger] r.1[k]).to, file) by {
                    if k < st.1.len() + contains.len() {
                        assert(r.1[k] == contains[k - st.1.len()]);
                        assert(r.1[k].to == symbol_id(file, name));
                    } else {
                        assert(r.1[k] == bases[k - st.1.len() - contains.len()]);
                    }
                }
            },
            None => {
                assert(r.0.take(st.0.len() as int) =~= st.0);
                assert(r.1.take(st.1.len() as int) =~= st.1);
            },
        }
    } else if is_call(n) && scope is Some {
        match use_target(n) {
            Some(name) => {
                assert(r.0.take(st.0.len() as int) =~= st.0);
                assert(r.1.take(st.1.len() as int) =~= st.1);
                assert(r.1[st.1.len() as int].to == symbol_id(file, name));
            },
            None => {
                assert(r.0.take(st.0.len() as int) =~= st.0);
                assert(r.1.take(st.1.len() as int) =~= st.1);
            },
        }
    } else {
        assert(r.0.take(st.0.len() as int) =~= st.0);
        assert(r.1.take(st.1.len() as int) =~= st.1);
    }
}

/// The walk only adds to what it was given: the nodes and edges gathered before stay as
/// they were, in front; each node it adds is a public function or class of the file whose
/// id is the file's path, `::` and its name; and each edge it adds leads to such an id.
pub proof fn lemma_ast_visit_grows(n: TsNode, file: Seq<char>, scope: Option<Seq<char>>, st: (Seq<NodeV>, Seq<EdgeV>))
    ensures
        ast_grows(st, ast_visit(n, file, scope, st), file),
    decreases n,
{
    let r = ast_item(n, file, scope, st);
    lemma_item_grows(n, file, scope, st);
    lemma_ast_list_grows(n.children@, file, r.1, r.0);
    lemma_grows_trans(st, r.0, ast_visit(n, file, scope, st), file);
}

/// The walk over a list of nodes only adds to what it was given, as `lemma_ast_visit_grows`
/// says of one node.
pub proof fn lemma_ast_list_grows(cs: Seq<TsNode>, file: Seq<char>, scope: Option<Seq<char>>, st: (Seq<NodeV>, Seq<EdgeV>))
    ensures
        ast_grows(st, ast_visit_list(cs, file, scope, st), file),
    decreases cs,
{
    if cs.len() == 0 {
        assert(st.0.take(st.0.len() as int) =~= st.0);
        assert(st.1.take(st.1.len() as int) =~= st.1);
    } else {
        let mid = ast_visit_list(cs.drop_last(), file, scope, st);
        lemma_ast_list_grows(cs.drop_last(), file, scope, st);
        lemma_ast_visit_grows(cs.last(), file, scope, mid);
        lemma_grows_trans(st, mid, ast_visit_list(cs, file, scope, st), file);
    }
}

/// Whether one of the nodes from position `lo` on is the target of the edge, with the
/// edge's source as its parent.
#[verifier::opaque]
pub open spec fn has_child_node(nodes: Seq<NodeV>, lo: int, e: EdgeV) -> bool {
    exists|j: int| lo <= j < nodes.len() && nodes[j].id == e.to && nodes[j].parent_id == Some(e.from)
}

/// Whether one of the edges from position `lo` on is the containment edge from the node's
/// parent to the node.
#[verifier::opaque]
pub open spec fn has_contains_edge(edges: Seq<EdgeV>, lo: int, n: NodeV) -> bool {
    exists|k: int| lo <= k < edges.len() && edges[k] == edge_v(n.parent_id->0, n.id, EdgeKind::Contains)
}

/// Whether the containment edges that `after` adds to `before` match the nodes it adds:
/// each such edge leads from a new node's parent to that node, and each new node with a
/// parent has such an edge.
pub open spec fn contains_match(before: (Seq<NodeV>, Seq<EdgeV>), after: (Seq<NodeV>, Seq<EdgeV>)) -> bool {
    &&& forall|k: int| before.1.len() <= k < after.1.len() && (#[trigger] after.1[k]).kind == EdgeKind::Contains ==>
        has_child_node(after.0, before.0.len() as int, after.1[k])
    &&& forall|j: int| before.0.len() <= j < after.0.len() && (#[trigger] after.0[j]).parent_id is Some ==>
        has_contains_edge(after.1, before.1.len() as int, after.0[j])
}

/// Whether `after` keeps the nodes and edges of `before` in front.
pub open spec fn keeps_prefix(before: (Seq<NodeV>, Seq<EdgeV>), after: (Seq<NodeV>, Seq<EdgeV>)) -> bool {
    &&& before.0.len() <= after.0.len()
    &&& after.0.take(before.0.len() as int) == before.0
    &&& before.1.len() <= after.1.len()
    &&& after.1.take(before.1.len() as int) == before.1
}

proof fn lemma_child_node_wider(b: Seq<NodeV>, c: Seq<NodeV>, lo: int, lo2: int, e: EdgeV)
    requires
        has_child_node(b, lo, e),
        b.len() <= c.len(),
        c.take(b.len() as int) == b,
        0 <= lo2 <= lo,
    ensures
        has_child_node(c, lo2, e),
{
    reveal(has_child_node);
    let j = choose|j: int| lo <= j < b.len() && b[j].id == e.to && b[j].parent_id == Some(e.from);
    assert(c[j] == c.take(b.len() as int)[j]);
}

proof fn lemma_contains_edge_wider(b: Seq<EdgeV>, c: Seq<EdgeV>, lo: int, lo2: int, n: NodeV)
    requires
        has_contains_edge(b, lo, n),
        b.len() <= c.len(),
        c.take(b.len() as int) == b,
        0 <= lo2 <= lo,
    ensures
        has_contains_edge(c, lo2, n),
{
    reveal(has_contains_edge);
    let k = choose|k: int| lo <= k < b.len() && b[k] == edge_v(n.parent_id->0, n.id, EdgeKind::Contains);
    assert(c[k] == c.take(b.len() as int)[k]);
}

proof fn lemma_match_trans(a: (Seq<NodeV>, Seq<EdgeV>), b: (Seq<NodeV>, Seq<EdgeV>), c: (Seq<NodeV>, Seq<EdgeV>))
    requires
        keeps_prefix(a, b),
        keeps_prefix(b, c),
        contains_match(a, b),
        contains_match(b, c),
    ensures
        contains_match(a, c),
{
    assert forall|k: int| a.1.len() <= k < c.1.len() && (#[trigger] c.1[k]).kind == EdgeKind::Contains implies
        has_child_node(c.0, a.0.len() as int, c.1[k]) by {
        if k < b.1.len() {
            assert(c.1[k] == c.1.take(b.1.len() as int)[k]);
            assert(b.1[k].kind == EdgeKind::Contains);
            lemma_child_node_wider(b.0, c.0, a.0.len() as int, a.0.len() as int, b.1[k]);
        } else {
            assert(c.0.take(c.0.len() as int) =~= c.0);
            lemma_child_node_wider(c.0, c.0, b.0.len() as int, a.0.len() as int, c.1[k]);
        }
    }
    assert forall|j: int| a.0.len() <= j < c.0.len() && (#[trigger] c.0[j]).parent_id is Some implies
        has_contains_edge(c.1, a.1.len() as int, c.0[j]) by {
        if j < b.0.len() {
            assert(c.0[j] == c.0.take(b.0.len() as int)[j]);
            assert(b.0[j].parent_id is Some);
            lemma_contains_edge_wider(b.1, c.1, a.1.len() as int, a.1.len() as int, b.0[j]);
        } else {
            assert(c.1.take(c.1.len() as int) =~= c.1);
            lemma_contains_edge_wider(c.1, c.1, b.1.len() as int, a.1.len() as int, c.0[j]);
        }
    }
}

proof fn lemma_base_edges_inherit(cs: Seq<TsNode>, id: Seq<char>, file: Seq<char>)
    ensures
        forall|k: int| 0 <= k < base_edges(cs, id, file).len() ==> (#[trigger] base_edges(cs, id, file)[k]).kind == EdgeKind::Inherits,
    decreases cs.len(),
{
    if cs.len() > 0 {
        lemma_base_edges_inherit(cs.drop_last(), id, file);
        let front = base_edges(cs.drop_last(), id, file);
        let c = cs.last();
        let more = if c.node_type@ == "argument_list"@ || c.node_type@ == "class_heritage"@ {
            idents_in(c).map_values(|b: Seq<char>| edge_v(id, symbol_id(file, b), EdgeKind::Inherits))
        } else {
            seq![]
        };
        assert(base_edges(cs, id, file) == front + more);
        assert forall|k: int| 0 <= k < base_edges(cs, id, file).len() implies (#[trigger] base_edges(cs, id, file)[k]).kind == EdgeKind::Inherits by {
            if k >= front.len() {
                assert(base_edges(cs, id, file)[k] == more[k - front.len()]);
            } else {
                assert(base_edges(cs, id, file)[k] == front[k]);
            }
        }
    }
}

proof fn lemma_item_match(n: TsNode, file: Seq<char>, scope: Option<Seq<char>>, st: (Seq<NodeV>, Seq<EdgeV>))
    ensures
        contains_match(st, ast_item(n, file, scope, st).0),
{
    let r = ast_item(n, file, scope, st).0;
    lemma_item_grows(n, file, scope, st);
    if declares_function(n) || declares_class(n) {
        match first_ident(n.children@) {
            Some(i) => {
                let name = n.children@[i].text@;
                let id = symbol_id(file, name);
                let contains = match scope { Some(p) => seq![edge_v(p, id, EdgeKind::Contains)], None => seq![] };
                let bases = if declares_class(n) { base_edges(n.children@, id, file) } else { seq![] };
                lemma_base_edges_inherit(n.children@, id, file);
                let j0 = st.0.len() as int;
                assert(r.0[j0].id == id);
                assert(r.0[j0].parent_id == scope);
                assert(r.0.len() == st.0.len() + 1);
                reveal(has_child_node);
                reveal(has_contains_edge);
                assert forall|k: int| st.1.len() <= k < r.1.len() && (#[trigger] r.1[k]).kind == EdgeKind::Contains implies
                    has_child_node(r.0, st.0.len() as int, r.1[k]) by {
                    if k < st.1.len() + contains.len() {
                        assert(r.1[k] == contains[k - st.1.len()]);
                        assert(r.0[j0].id == r.1[k].to);
                    } else {
                        assert(r.1[k] == bases[k - st.1.len() - contains.len()]);
                    }
                }
                assert forall|j: int| st.0.len() <= j < r.0.len() && (#[trigger] r.0[j]).parent_id is Some implies
                    has_contains_edge(r.1, st.1.len() as int, r.0[j]) by {
                    assert(j == j0);
                    assert(r.1[st.1.len() as int] == contains[0]);
                }
            },
            None => {},
        }
    } else if is_call(n) && scope is Some {
        match use_target(n) {
            Some(name) => {
                assert(r.0.len() == st.0.len());
                assert(r.1.len() == st.1.len() + 1);
                assert(r.1[st.1.len() as int].kind != EdgeKind::Contains);
            },
            None => {},
        }
    }
}

/// The walk records containment as it records symbols: each containment edge it adds leads
/// from a new symbol's parent to that symbol, and each new symbol with a parent gets such
/// an edge.
pub proof fn lemma_ast_visit_contains(n: TsNode, file: Seq<char>, scope: Option<Seq<char>>, st: (Seq<NodeV>, Seq<EdgeV>))
    ensures
        contains_match(st, ast_visit(n, file, scope, st)),
    decreases n,
{
    let r = ast_item(n, file, scope, st);
    lemma_item_grows(n, file, scope, st);
    lemma_item_match(n, file, scope, st);
    lemma_ast_list_grows(n.children@, file, r.1, r.0);
    lemma_ast_list_contains(n.children@, file, r.1, r.0);
    lemma_match_trans(st, r.0, ast_visit(n, file, scope, st));
}

/// The walk over a list of nodes records containment as `lemma_ast_visit_contains` says of
/// one node.
pub proof fn lemma_ast_list_contains(cs: Seq<TsNode>, file: Seq<char>, scope: Option<Seq<char>>, st: (Seq<NodeV>, Seq<EdgeV>))
    ensures
        contains_match(st, ast_visit_list(cs, file, scope, st)),
    decreases cs,
{
    if cs.len() > 0 {
        let mid = ast_visit_list(cs.drop_last(), file, scope, st);
        lemma_ast_list_grows(cs.drop_last(), file, scope, st);
        lemma_ast_list_contains(cs.drop_last(), file, scope, st);
        lemma_ast_visit_grows(cs.last(), file, scope, mid);
        lemma_ast_visit_contains(cs.last(), file, scope, mid);
        lemma_match_trans(st, mid, ast_visit_list(cs, file, scope, st));
    }
}

/// Whether an edge is a containment edge.
pub open spec fn is_contains() -> spec_fn(EdgeV) -> bool {
    |e: EdgeV| e.kind == EdgeKind::Contains
}

/// Whether a node has a parent.
pub open spec fn has_parent() -> spec_fn(NodeV) -> bool {
    |n: NodeV| n.parent_id is Some
}

/// The containment edge from a node's parent to the node.
pub open spec fn parent_edge() -> spec_fn(NodeV) -> EdgeV {
    |n: NodeV| edge_v(n.parent_id->0, n.id, EdgeKind::Contains)
}

/// Whether the containment edges that `after` adds to `before` are, in order, exactly one
/// edge from each new node's parent to that node, for the new nodes that have a parent.
pub open spec fn contains_exact(before: (Seq<NodeV>, Seq<EdgeV>), after: (Seq<NodeV>, Seq<EdgeV>)) -> bool {
    after.1.skip(before.1.len() as int).filter(is_contains())
        == after.0.skip(before.0.len() as int).filter(has_parent()).map_values(parent_edge())
}

proof fn lemma_filter_none<A>(s: Seq<A>, p: spec_fn(A) -> bool)
    requires
        forall|i: int| 0 <= i < s.len() ==> !p(#[trigger] s[i]),
    ensures
        s.filter(p) =~= Seq::<A>::empty(),
    decreases s.len(),
{
    reveal(Seq::filter);
    if s.len() > 0 {
        lemma_filter_none(s.drop_last(), p);
        assert(!p(s[s.len() - 1]));
    }
}

proof fn lemma_exact_trans(a: (Seq<NodeV>, Seq<EdgeV>), b: (Seq<NodeV>, Seq<EdgeV>), c: (Seq<NodeV>, Seq<EdgeV>))
    requires
        keeps_prefix(a, b),
        keeps_prefix(b, c),
        contains_exact(a, b),
        contains_exact(b, c),
    ensures
        contains_exact(a, c),
{
    let ea = c.1.skip(a.1.len() as int);
    let eb = b.1.skip(a.1.len() as int);
    let ec = c.1.skip(b.1.len() as int);
    assert(ea =~= eb + ec) by {
        assert forall|k: int| 0 <= k < eb.len() implies ea[k] == eb[k] by {
            assert(c.1[a.1.len() + k] == c.1.take(b.1.len() as int)[a.1.len() + k]);
        }
    }
    let na = c.0.skip(a.0.len() as int);
    let nb = b.0.skip(a.0.len() as int);
    let nc = c.0.skip(b.0.len() as int);
    assert(na =~= nb + nc) by {
        assert forall|k: int| 0 <= k < nb.len() implies na[k] == nb[k] by {
            assert(c.0[a.0.len() + k] == c.0.take(b.0.len() as int)[a.0.len() + k]);
        }
    }
    Seq::filter_distributes_over_add(eb, ec, is_contains());
    Seq::filter_distributes_over_add(nb, nc, has_parent());
    let fb = nb.filter(has_parent());
    let fc = nc.filter(has_parent());
    assert((fb + fc).map_values(parent_edge()) =~= fb.map_values(parent_edge()) + fc.map_values(parent_edge()));
}

proof fn lemma_item_exact(n: TsNode, file: Seq<char>, scope: Option<Seq<char>>, st: (Seq<NodeV>, Seq<EdgeV>))
    ensures
        contains_exact(st, ast_item(n, file, scope, st).0),
{
    let r = ast_item(n, file, scope, st).0;
    lemma_item_grows(n, file, scope, st);
    let en = r.1.skip(st.1.len() as int);
    let nn = r.0.skip(st.0.len() as int);
    if (declares_function(n) || declares_class(n)) && first_ident(n.children@) is Some {
        let i = first_ident(n.children@)->0;
        let name = n.children@[i].text@;
        let id = symbol_id(file, name);
        let contains = match scope { Some(p) => seq![edge_v(p, id, EdgeKind::Contains)], None => seq![] };
        let bases = if declares_class(n) { base_edges(n.children@, id, file) } else { seq![] };
        lemma_base_edges_inherit(n.children@, id, file);
        assert(r.1 == st.1 + contains + bases);
        assert(en =~= contains + bases);
        assert(nn =~= seq![r.0[st.0.len() as int]]);
        lemma_filter_none(bases, is_contains());
        Seq::filter_distributes_over_add(contains, bases, is_contains());
        reveal_with_fuel(Seq::filter, 2);
        match scope {
            Some(p) => {
                assert(contains.filter(is_contains()) =~= contains);
                assert(nn.filter(has_parent()) =~= nn);
                assert(nn.filter(has_parent()).map_values(parent_edge()) =~= contains);
            },
            None => {
                assert(contains.filter(is_contains()) =~= contains);
                assert(nn.filter(has_parent()) =~= Seq::<NodeV>::empty());
                assert(nn.filter(has_parent()).map_values(parent_edge()) =~= Seq::<EdgeV>::empty());
            },
        }
    } else {
        assert(nn =~= Seq::<NodeV>::empty());
        lemma_filter_none(nn, has_parent());
        assert forall|k: int| 0 <= k < en.len() implies !is_contains()(#[trigger] en[k]) by {
            assert(en.len() <= 1);
        }
        lemma_filter_none(en, is_contains());
        assert(nn.filter(has_parent()).map_values(parent_edge()) =~= Seq::<EdgeV>::empty());
    }
}

/// The walk adds exactly one containment edge for each new symbol that has a parent: the
/// containment edges it adds are, in order, those from each new symbol's parent to it.
pub proof fn lemma_ast_visit_exact(n: TsNode, file: Seq<char>, scope: Option<Seq<char>>, st: (Seq<NodeV>, Seq<EdgeV>))
    ensures
        contains_exact(st, ast_visit(n, file, scope, st)),
    decreases n,
{
    let r = ast_item(n, file, scope, st);
    lemma_item_grows(n, file, scope, st);
    lemma_item_exact(n, file, scope, st);
    lemma_ast_list_grows(n.children@, file, r.1, r.0);
    lemma_ast_list_exact(n.children@, file, r.1, r.0);
    lemma_exact_trans(st, r.0, ast_visit(n, file, scope, st));
}

/// The walk over a list of nodes adds containment edges as `lemma_ast_visit_exact` says of
/// one node.
pub proof fn lemma_ast_list_exact(cs: Seq<TsNode>, file: Seq<char>, scope: Option<Seq<char>>, st: (Seq<NodeV>, Seq<EdgeV>))
    ensures
        contains_exact(st, ast_visit_list(cs, file, scope, st)),
    decreases cs,
{
    if cs.len() == 0 {
        assert(st.1.skip(st.1.len() as int) =~= Seq::<EdgeV>::empty());
        assert(st.0.skip(st.0.len() as int) =~= Seq::<NodeV>::empty());
        lemma_filter_none(st.1.skip(st.1.len() as int), is_contains());
        lemma_filter_none(st.0.skip(st.0.len() as int), has_parent());
        assert(st.0.skip(st.0.len() as int).filter(has_parent()).map_values(parent_edge()) =~= Seq::<EdgeV>::empty());
    } else {
        let mid = ast_visit_list(cs.drop_last(), file, scope, st);
        lemma_ast_list_grows(cs.drop_last(), file, scope, st);
        lemma_ast_list_exact(cs.drop_last(), file, scope, st);
        lemma_ast_visit_grows(cs.last(), file, scope, mid);
        lemma_ast_visit_exact(cs.last(), file, scope, mid);
        lemma_exact_trans(st, mid, ast_visit_list(cs, file, scope, st));
    }
}

/// Whether every function or class that the walk records starts on a row whose line number
/// fits in 32 bits.
pub open spec fn rows_fit(n: TsNode) -> bool
    decreases n,
{
    &&& ((declares_function(n) || declares_class(n)) && first_ident(n.children@) is Some ==> n.start_position.row < u32::MAX)
    &&& forall|i: int| 0 <= i < n.children@.len() ==> rows_fit(#[trigger] n.children@[i])
}

fn type_is(n: &TsNode, t: &str) -> (r: bool)
    ensures
        r == (n.node_type@ == t@),
{
    same_text(&n.node_type, &to_owned_string(t))
}

fn is_ident_exec(n: &TsNode) -> (r: bool)
    ensures
        r == is_ident(*n),
{
    type_is(n, "identifier") || type_is(n, "property_identifier") || type_is(n, "type_identifier")
}

fn declares_function_exec(n: &TsNode) -> (r: bool)
    ensures
        r == declares_function(*n),
{
    if type_is(n, "function_definition") || type_is(n, "function_declaration") || type_is(n, "method_definition")
        || type_is(n, "arrow_function") {
        return true;
    }
    if !type_is(n, "variable_declarator") {
        return false;
    }
    let cs = &n.children;
    let mut i: usize = 0;
    while i < cs.len()
        invariant
            i <= cs@.len(),
            cs@ == n.children@,
            n.node_type@ == "variable_declarator"@,
            forall|j: int| 0 <= j < i ==> #[trigger] cs@[j].node_type@ != "arrow_function"@,
        decreases cs@.len() - i,
    {
        if type_is(&cs[i], "arrow_function") {
            return true;
        }
        i = i + 1;
    }
    false
}

fn declares_class_exec(n: &TsNode) -> (r: bool)
    ensures
        r == declares_class(*n),
{
    type_is(n, "class_definition") || type_is(n, "class_declaration")
}

fn is_call_exec(n: &TsNode) -> (r: bool)
    ensures
        r == is_call(*n),
{
    type_is(n, "call_expression") || type_is(n, "call") || type_is(n, "jsx_self_closing_element")
        || type_is(n, "jsx_opening_element")
}

fn is_jsx_exec(n: &TsNode) -> (r: bool)
    ensures
        r == is_jsx(*n),
{
    let v = chars_of(n.node_type.as_str());
    proof {
        reveal_strlit("jsx");
    }
    if v.len() >= 3 && v[0] == 'j' && v[1] == 's' && v[2] == 'x' {
        assert(v@.take(3) =~= "jsx"@);
        true
    } else {
        assert(v@.len() >= 3 ==> v@.take(3)[0] == v@[0] && v@.take(3)[1] == v@[1] && v@.take(3)[2] == v@[2]);
        false
    }
}

fn first_ident_exec(cs: &Vec<TsNode>) -> (r: Option<usize>)
    ensures
        match r {
            Some(i) => first_ident(cs@) == Some(i as int) && i < cs@.len(),
            None => first_ident(cs@) is None,
        },
{
    let mut i: usize = 0;
    while i < cs.len()
        invariant
            i <= cs@.len(),
            first_ident(cs@.take(i as int)) is None,
        decreases cs@.len() - i,
    {
        assert(cs@.take(i + 1).drop_last() =~= cs@.take(i as int));
        assert(cs@.take(i + 1).last() == cs@[i as int]);
        if is_ident_exec(&cs[i]) {
            proof {
                lemma_first_ident_prefix(cs@, i as int + 1);
            }
            return Some(i);
        }
        i = i + 1;
    }
    assert(cs@.take(cs@.len() as int) =~= cs@);
    None
}

proof fn lemma_first_ident_prefix(cs: Seq<TsNode>, k: int)
    requires
        0 < k <= cs.len(),
        first_ident(cs.take(k)) is Some,
    ensures
        first_ident(cs) == first_ident(cs.take(k)),
    decreases cs.len() - k,
{
    if k < cs.len() {
        assert(cs.take(k + 1).drop_last() =~= cs.take(k));
        lemma_first_ident_prefix(cs, k + 1);
    } else {
        assert(cs.take(k) =~= cs);
    }
}

fn idents_exec(n: &TsNode, out: &mut Vec<String>)
    ensures
        final(out).deep_view() == old(out).deep_view() + idents_in(*n),
    decreases n,
{
    let ghost o0 = out.deep_view();
    if is_ident_exec(n) {
        out.push(copy_string(&n.text));
    }
    let ghost o1 = out.deep_view();
    assert(o1 =~= o0 + (if is_ident(*n) { seq![n.text@] } else { seq![] }));
    let cs = &n.children;
    let mut i: usize = 0;
    while i < cs.len()
        invariant
            i <= cs@.len(),
            cs@ == n.children@,
            out.deep_view() == o1 + idents_among(cs@.take(i as int)),
        decreases cs@.len() - i,
    {
        assert(cs@.take(i + 1).drop_last() =~= cs@.take(i as int));
        assert(cs@.take(i + 1).last() == cs@[i as int]);
        proof {
            assert(decreases_to!(*n => n.children));
            assert(decreases_to!(n.children => n.children@));
            assert(decreases_to!(n.children@ => n.children@[i as int]));
        }
        idents_exec(&cs[i], out);
        i = i + 1;
        assert(out.deep_view() =~= o1 + idents_among(cs@.take(i as int)));
    }
    assert(cs@.take(cs@.len() as int) =~= cs@);
    assert(out.deep_view() =~= o0 + idents_in(*n));
}

fn push_edge(edges: &mut Vec<Edge>, from: String, to: String, kind: EdgeKind)
    ensures
        edges_v(final(edges)@) == edges_v(old(edges)@).push(edge_v(from@, to@, kind)),
{
    edges.push(Edge { from_id: from, to_id: to, kind });
    assert(edges_v(edges@) =~= edges_v(old(edges)@).push(edge_v(from@, to@, kind)));
}

fn base_edges_exec(cs: &Vec<TsNode>, id: &String, file: &String, edges: &mut Vec<Edge>)
    ensures
        edges_v(final(edges)@) == edges_v(old(edges)@) + base_edges(cs@, id@, file@),
{
    let ghost e0 = edges_v(edges@);
    let mut i: usize = 0;
    while i < cs.len()
        invariant
            i <= cs@.len(),
            edges_v(edges@) == e0 + base_edges(cs@.take(i as int), id@, file@),
        decreases cs@.len() - i,
    {
        assert(cs@.take(i + 1).drop_last() =~= cs@.take(i as int));
        assert(cs@.take(i + 1).last() == cs@[i as int]);
        let c = &cs[i];
        if type_is(c, "argument_list") || type_is(c, "class_heritage") {
            let mut bases: Vec<String> = Vec::new();
            idents_exec(c, &mut bases);
            assert(bases.deep_view() =~= idents_in(*c));
            let ghost e1 = edges_v(edges@);
            let mut k: usize = 0;
            while k < bases.len()
                invariant
                    k <= bases@.len(),
                    bases.deep_view() == idents_in(*c),
                    edges_v(edges@) == e1 + idents_in(*c).take(k as int).map_values(
                        |b: Seq<char>| edge_v(id@, symbol_id(file@, b), EdgeKind::Inherits)),
                decreases bases@.len() - k,
            {
                assert(bases.deep_view()[k as int] == bases@[k as int]@);
                push_edge(edges, copy_string(id), make_symbol_id(file, &bases[k]), EdgeKind::Inherits);
                k = k + 1;
                assert(edges_v(edges@) =~= e1 + idents_in(*c).take(k as int).map_values(
                    |b: Seq<char>| edge_v(id@, symbol_id(file@, b), EdgeKind::Inherits)));
            }
            assert(idents_in(*c).take(k as int) =~= idents_in(*c));
        }
        i = i + 1;
        assert(edges_v(edges@) =~= e0 + base_edges(cs@.take(i as int), id@, file@));
    }
    assert(cs@.take(cs@.len() as int) =~= cs@);
}

fn call_target_exec(cs: &Vec<TsNode>) -> (r: Option<String>)
    ensures
        match r {
            Some(t) => call_target(cs@) == Some(t@),
            None => call_target(cs@) is None,
        },
{
    let mut t: Option<String> = None;
    let mut i: usize = 0;
    while i < cs.len()
        invariant
            i <= cs@.len(),
            match t {
                Some(x) => call_target(cs@.take(i as int)) == Some(x@),
                None => call_target(cs@.take(i as int)) is None,
            },
        decreases cs@.len() - i,
    {
        assert(cs@.take(i + 1).drop_last() =~= cs@.take(i as int));
        assert(cs@.take(i + 1).last() == cs@[i as int]);
        let c = &cs[i];
        if type_is(c, "attribute") || type_is(c, "member_expression") {
            let mut ids: Vec<String> = Vec::new();
            idents_exec(c, &mut ids);
            assert(ids.deep_view() =~= idents_in(*c));
            if ids.len() > 0 {
                let last = copy_string(&ids[ids.len() - 1]);
                assert(ids.deep_view()[ids@.len() - 1] == ids@[ids@.len() - 1]@);
                t = Some(last);
            }
        } else if (type_is(c, "identifier") || type_is(c, "property_identifier")) && t.is_none() {
            t = Some(copy_string(&c.text));
        }
        i = i + 1;
    }
    assert(cs@.take(cs@.len() as int) =~= cs@);
    t
}

fn use_target_exec(n: &TsNode) -> (r: Option<String>)
    ensures
        match r {
            Some(t) => use_target(*n) == Some(t@),
            None => use_target(*n) is None,
        },
{
    if is_jsx_exec(n) {
        let mut ids: Vec<String> = Vec::new();
        idents_exec(n, &mut ids);
        assert(ids.deep_view() =~= idents_in(*n));
        if ids.len() > 0 {
            assert(ids.deep_view()[0] == ids@[0]@);
            Some(copy_string(&ids[0]))
        } else {
            None
        }
    } else {
        call_target_exec(&n.children)
    }
}

fn push_node(nodes: &mut Vec<Node>, n: Node)
    ensures
        nodes_v(final(nodes)@) == nodes_v(old(nodes)@).push(n@),
{
    nodes.push(n);
    assert(nodes_v(nodes@) =~= nodes_v(old(nodes)@).push(n@));
}

fn copy_opt(o: &Option<String>) -> (r: Option<String>)
    ensures
        opt_view(r) == opt_view(*o),
{
    match o {
        Some(s) => Some(copy_string(s)),
        None => None,
    }
}

fn ast_visit_exec(n: &TsNode, file: &String, scope: &Option<String>, nodes: &mut Vec<Node>, edges: &mut Vec<Edge>)
    requires
        rows_fit(*n),
    ensures
        (nodes_v(final(nodes)@), edges_v(final(edges)@))
            == ast_visit(*n, file@, opt_view(*scope), (nodes_v(old(nodes)@), edges_v(old(edges)@))),
    decreases n,
{
    let ghost st = (nodes_v(nodes@), edges_v(edges@));
    let ghost it = ast_item(*n, file@, opt_view(*scope), st);
    let is_fn = declares_function_exec(n);
    let is_class = declares_class_exec(n);
    let mut next = copy_opt(scope);
    if is_fn || is_class {
        match first_ident_exec(&n.children) {
            Some(i) => {
                let name = &n.children[i].text;
                let id = make_symbol_id(file, name);
                push_node(nodes, Node {
                    id: copy_string(&id),
                    label: copy_string(name),
                    kind: if is_fn { NodeKind::Function { is_async: false } } else { NodeKind::Class },
                    file_path: copy_string(file),
                    line: Some(n.start_position.row + 1),
                    is_public: true,
                    parent_id: copy_opt(scope),
                });
                let ghost e0 = edges_v(edges@);
                match scope {
                    Some(p) => push_edge(edges, copy_string(p), copy_string(&id), EdgeKind::Contains),
                    None => {},
                }
                let ghost e1 = edges_v(edges@);
                if is_class {
                    base_edges_exec(&n.children, &id, file, edges);
                }
                assert(edges_v(edges@) =~= it.0.1);
                next = Some(id);
            },
            None => {},
        }
    } else if is_call_exec(n) && scope.is_some() {
        match use_target_exec(n) {
            Some(name) => {
                let kind = if is_jsx_exec(n) { EdgeKind::Instantiates } else { EdgeKind::Calls };
                let from = match scope {
                    Some(p) => copy_string(p),
                    None => String::new(),
                };
                push_edge(edges, from, make_symbol_id(file, &name), kind);
            },
            None => {},
        }
    }
    assert((nodes_v(nodes@), edges_v(edges@)) == it.0);
    assert(opt_view(next) == it.1);
    let cs = &n.children;
    let ghost st1 = it.0;
    let mut i: usize = 0;
    while i < cs.len()
        invariant
            i <= cs@.len(),
            cs@ == n.children@,
            forall|j: int| 0 <= j < cs@.len() ==> rows_fit(#[trigger] cs@[j]),
            (nodes_v(nodes@), edges_v(edges@)) == ast_visit_list(cs@.take(i as int), file@, opt_view(next), st1),
        decreases cs@.len() - i,
    {
        assert(cs@.take(i + 1).drop_last() =~= cs@.take(i as int));
        assert(cs@.take(i + 1).last() == cs@[i as int]);
        proof {
            assert(decreases_to!(*n => n.children));
            assert(decreases_to!(n.children => n.children@));
            assert(decreases_to!(n.children@ => n.children@[i as int]));
        }
        ast_visit_exec(&cs[i], file, &next, nodes, edges);
        i = i + 1;
    }
    assert(cs@.take(cs@.len() as int) =~= cs@);
}

/// Whether every function or class that the walk records starts on a row whose line
/// number (the row plus one) fits in 32 bits.
pub fn rows_fit_check(n: &TsNode) -> (r: bool)
    ensures
        r == rows_fit(*n),
    decreases n,
{
    let is_fn = declares_function_exec(n);
    let is_class = declares_class_exec(n);
    if (is_fn || is_class) && first_ident_exec(&n.children).is_some() && n.start_position.row == u32::MAX {
        return false;
    }
    let cs = &n.children;
    let mut i: usize = 0;
    while i < cs.len()
        invariant
            i <= cs@.len(),
            cs@ == n.children@,
            forall|j: int| 0 <= j < i ==> rows_fit(#[trigger] cs@[j]),
        decreases cs@.len() - i,
    {
        proof {
            assert(decreases_to!(*n => n.children));
            assert(decreases_to!(n.children => n.children@));
            assert(decreases_to!(n.children@ => n.children@[i as int]));
        }
        if !rows_fit_check(&cs[i]) {
            return false;
        }
        i = i + 1;
    }
    true
}

/// Whether the graph is the one built from the tree for the file in the language: a file
/// node, then what the walk gathers from the root in the file's scope.
pub open spec fn is_ast_graph(g: CodeGraph, root: TsNode, language: Seq<char>, file: Seq<char>) -> bool {
    let file_node = NodeV {
        id: file,
        label: last_segment(file),
        kind: NodeKind::File,
        file_path: file,
        line: None,
        is_public: true,
        parent_id: None,
    };
    let st = ast_visit(root, file, Some(file), (seq![file_node], seq![]));
    &&& g.nv() == st.0
    &&& g.ev() == st.1
    &&& g.control_flow@.len() == 0
    &&& g.meta.language@ == language
    &&& g.meta.source_root@ == Seq::<char>::empty()
    &&& g.meta.generated_at@ == Seq::<char>::empty()
    &&& g.meta.node_count == g.nodes@.len()
    &&& g.meta.edge_count == g.edges@.len()
}

/// Builds the graph of a file from its handed-over syntax tree (the part of
/// `parse_and_build_graph` that follows reading the tree).
pub fn graph_from_ast(language: &str, file_path: &str, root: &TsNode) -> (g: CodeGraph)
    requires
        rows_fit(*root),
    ensures
        is_ast_graph(g, *root, language@, file_path@),
{
    let file = to_owned_string(file_path);
    let mut nodes: Vec<Node> = Vec::new();
    let mut edges: Vec<Edge> = Vec::new();
    push_node(&mut nodes, Node {
        id: copy_string(&file),
        label: last_segment_exec(&file),
        kind: NodeKind::File,
        file_path: copy_string(&file),
        line: None,
        is_public: true,
        parent_id: None,
    });
    assert(edges_v(edges@) =~= Seq::<EdgeV>::empty());
    assert(nodes_v(nodes@) =~= seq![NodeV {
        id: file_path@,
        label: last_segment(file_path@),
        kind: NodeKind::File,
        file_path: file_path@,
        line: None,
        is_public: true,
        parent_id: None,
    }]);
    let scope = Some(copy_string(&file));
    assert(opt_view(scope) == Some(file_path@));
    ast_visit_exec(root, &file, &scope, &mut nodes, &mut edges);
    let meta = GraphMeta {
        language: to_owned_string(language),
        source_root: String::new(),
        generated_at: String::new(),
        node_count: nodes.len(),
        edge_count: edges.len(),
    };
    CodeGraph { nodes, edges, control_flow: Vec::new(), meta }
}

/// The diagram named by a word: `module`, `call` or `class`; any other is refused with
/// `Unknown diagram kind: ` and the word.
pub fn get_diagram_kind(kind: &str) -> (r: Result<DiagramKind, String>)
    ensures
        match diagram_of(kind@) {
            Some(k) => r == Ok::<DiagramKind, String>(k),
            None => r matches Err(e) && e@ == "Unknown diagram kind: "@ + kind@,
        },
{
    let k = to_owned_string(kind);
    if same_text(&k, &to_owned_string("module")) {
        Ok(DiagramKind::ModuleGraph)
    } else if same_text(&k, &to_owned_string("call")) {
        Ok(DiagramKind::CallGraph)
    } else if same_text(&k, &to_owned_string("class")) {
        Ok(DiagramKind::ClassDiagram)
    } else {
        let mut e = to_owned_string("Unknown diagram kind: ");
        push_str(&mut e, kind);
        Err(e)
    }
}

/// The languages that a browser-side tree can come from.
pub fn supported_languages() -> (r: Vec<String>)
    ensures
        r.deep_view() == seq!["python"@, "typescript"@, "javascript"@, "go"@, "rust"@, "java"@],
{
    let mut r: Vec<String> = Vec::new();
    r.push(to_owned_string("python"));
    r.push(to_owned_string("typescript"));
    r.push(to_owned_string("javascript"));
    r.push(to_owned_string("go"));
    r.push(to_owned_string("rust"));
    r.push(to_owned_string("java"));
    assert(r.deep_view() =~= seq!["python"@, "typescript"@, "javascript"@, "go"@, "rust"@, "java"@]);
    r
}

} // verus!
