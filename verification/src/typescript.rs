//! The TypeScript and JavaScript extractor: ES imports, `require` calls, classes,
//! interfaces, functions and arrow functions, and what `export` makes public.

use vstd::prelude::*;
use crate::extract::{edge_v, line_from_row, line_of, make_symbol_id, new_meta, fresh_meta, symbol_id, symbol_node};
use crate::ir::{CodeGraph, Edge, EdgeKind, EdgeV, Node, NodeKind, NodeV, edges_v, nodes_v};
use crate::kotlin::has_kind;
use crate::parser::{LanguageParser, ParseError};
use crate::path_utils::{forward_slash, normalize_path};
use crate::syntax::{SyntaxNode, TSX_GRAMMAR, TYPESCRIPT_GRAMMAR, field_at, field_pos, kind_is, parse_syntax, text_of, tree_of_source, tsx_grammar, typescript_grammar};
use crate::text::{chars_of, copy_string, matches_at, occurs_at, push_str, same_text, string_from_chars, to_owned_string};

verus! {

/// Whether the character is a quote that module names are trimmed of.
pub open spec fn is_quote(c: char) -> bool {
    c == '\'' || c == '"' || c == '`'
}

/// The text without its leading and trailing quotes.
pub open spec fn trim_quotes(s: Seq<char>) -> Seq<char>
    decreases s.len(),
{
    if s.len() > 0 && is_quote(s[0]) {
        trim_quotes(s.skip(1))
    } else if s.len() > 0 && is_quote(s.last()) {
        trim_quotes(s.drop_last())
    } else {
        s
    }
}

/// The name that a function without one of its own takes from its parent: that of a
/// variable declarator, else none.
pub open spec fn fallback_name(parent: SyntaxNode) -> Seq<char> {
    if parent.kind@ == "variable_declarator"@ {
        match field_at(parent, "name"@) {
            Some(i) => text_of(parent.children@[i]),
            None => Seq::empty(),
        }
    } else {
        Seq::empty()
    }
}

/// The import edge of an `import` statement that is not `import type`: to its source
/// string, quotes trimmed.
pub open spec fn import_edges(n: SyntaxNode, file: Seq<char>) -> Seq<EdgeV> {
    if has_kind(n.children@, "type"@) {
        seq![]
    } else {
        match field_at(n, "source"@) {
            Some(i) => {
                let s = n.children@[i];
                if s.kind@ == "string"@ && s.text is Some {
                    seq![edge_v(file, trim_quotes(text_of(s)), EdgeKind::Imports)]
                } else {
                    seq![]
                }
            },
            None => seq![],
        }
    }
}

/// Import edges to each string among the arguments, quotes trimmed.
pub open spec fn string_edges(cs: Seq<SyntaxNode>, file: Seq<char>) -> Seq<EdgeV>
    decreases cs.len(),
{
    if cs.len() == 0 {
        seq![]
    } else {
        let c = cs.last();
        string_edges(cs.drop_last(), file) + if c.kind@ == "string"@ && c.text is Some {
            seq![edge_v(file, trim_quotes(text_of(c)), EdgeKind::Imports)]
        } else {
            seq![]
        }
    }
}

/// The import edges of a variable declarator whose value is a call of `require`.
pub open spec fn require_edges(d: SyntaxNode, file: Seq<char>) -> Seq<EdgeV> {
    match field_at(d, "value"@) {
        Some(i) => {
            let call = d.children@[i];
            if call.kind@ != "call_expression"@ {
                seq![]
            } else {
                match field_at(call, "function"@) {
                    Some(j) => if call.children@[j].text matches Some(t) && t@ == "require"@ {
                        match field_at(call, "arguments"@) {
                            Some(k) => string_edges(call.children@[k].children@, file),
                            None => seq![],
                        }
                    } else {
                        seq![]
                    },
                    None => seq![],
                }
            }
        },
        None => seq![],
    }
}

/// Inherits edges from `id` to each identifier among the nodes.
pub open spec fn ident_edges(cs: Seq<SyntaxNode>, id: Seq<char>, path: Seq<char>) -> Seq<EdgeV>
    decreases cs.len(),
{
    if cs.len() == 0 {
        seq![]
    } else {
        let c = cs.last();
        ident_edges(cs.drop_last(), id, path) + if (c.kind@ == "identifier"@ || c.kind@ == "type_identifier"@) && c.text is Some {
            seq![edge_v(id, symbol_id(path, text_of(c)), EdgeKind::Inherits)]
        } else {
            seq![]
        }
    }
}

/// The edges of the `extends` clauses among the nodes.
pub open spec fn extends_edges(cs: Seq<SyntaxNode>, id: Seq<char>, path: Seq<char>) -> Seq<EdgeV>
    decreases cs.len(),
{
    if cs.len() == 0 {
        seq![]
    } else {
        let c = cs.last();
        extends_edges(cs.drop_last(), id, path) + if c.kind@ == "extends_clause"@ { ident_edges(c.children@, id, path) } else { seq![] }
    }
}

/// The edges of the heritage clauses among a class's children.
pub open spec fn heritage_edges(cs: Seq<SyntaxNode>, id: Seq<char>, path: Seq<char>) -> Seq<EdgeV>
    decreases cs.len(),
{
    if cs.len() == 0 {
        seq![]
    } else {
        let c = cs.last();
        heritage_edges(cs.drop_last(), id, path) + if c.kind@ == "class_heritage"@ { extends_edges(c.children@, id, path) } else { seq![] }
    }
}

/// The edges of the `extends` clauses among an interface's children.
pub open spec fn interface_edges(cs: Seq<SyntaxNode>, id: Seq<char>, path: Seq<char>) -> Seq<EdgeV>
    decreases cs.len(),
{
    if cs.len() == 0 {
        seq![]
    } else {
        let c = cs.last();
        interface_edges(cs.drop_last(), id, path) + if c.kind@ == "extends_type_clause"@ { ident_edges(c.children@, id, path) } else { seq![] }
    }
}

/// What a class declaration adds: its node (not yet public) and its inheritance edges.
pub open spec fn class_item(n: SyntaxNode, path: Seq<char>) -> (Seq<NodeV>, Seq<EdgeV>) {
    match field_at(n, "name"@) {
        Some(i) => match n.children@[i].text {
            Some(t) => {
                let id = symbol_id(path, t@);
                (seq![symbol_node(id, t@, NodeKind::Class, path, line_of(n.row), false, None)], heritage_edges(n.children@, id, path))
            },
            None => (seq![], seq![]),
        },
        None => (seq![], seq![]),
    }
}

/// What an interface declaration adds: its node (not yet public) and its inheritance edges.
pub open spec fn interface_item(n: SyntaxNode, path: Seq<char>) -> (Seq<NodeV>, Seq<EdgeV>) {
    match field_at(n, "name"@) {
        Some(i) => match n.children@[i].text {
            Some(t) => {
                let id = symbol_id(path, t@);
                (seq![symbol_node(id, t@, NodeKind::Interface, path, line_of(n.row), false, None)], interface_edges(n.children@, id, path))
            },
            None => (seq![], seq![]),
        },
        None => (seq![], seq![]),
    }
}

/// The node of a function, named by its name or else by the fallback; none without a name.
pub open spec fn function_item(n: SyntaxNode, fallback: Seq<char>, path: Seq<char>) -> Seq<NodeV> {
    let name = match field_at(n, "name"@) {
        Some(i) => text_of(n.children@[i]),
        None => fallback,
    };
    if name.len() == 0 {
        seq![]
    } else {
        seq![symbol_node(symbol_id(path, name), name, NodeKind::Function { is_async: has_kind(n.children@, "async"@) },
            path, line_of(n.row), false, None)]
    }
}

/// The functions of the arrow functions that the declarators among the nodes hold.
pub open spec fn arrow_items(cs: Seq<SyntaxNode>, path: Seq<char>) -> Seq<NodeV>
    decreases cs.len(),
{
    if cs.len() == 0 {
        seq![]
    } else {
        let c = cs.last();
        arrow_items(cs.drop_last(), path) + if c.kind@ == "variable_declarator"@ {
            match field_at(c, "value"@) {
                Some(i) => if c.children@[i].kind@ == "arrow_function"@ {
                    function_item(c.children@[i], fallback_name(c), path)
                } else {
                    seq![]
                },
                None => seq![],
            }
        } else {
            seq![]
        }
    }
}

/// The nodes with the last one made public, where there is one.
pub open spec fn publish_last(ns: Seq<NodeV>) -> Seq<NodeV> {
    if ns.len() > 0 { ns.update(ns.len() - 1, NodeV { is_public: true, ..ns.last() }) } else { ns }
}

/// The nodes with each one whose id is `id` made public.
pub open spec fn publish_id(ns: Seq<NodeV>, id: Seq<char>) -> Seq<NodeV> {
    ns.map_values(|x: NodeV| if x.id == id { NodeV { is_public: true, ..x } } else { x })
}

/// Exported declarators: an arrow function becomes a public function, a call is read as a
/// `require`.
pub open spec fn export_decls(cs: Seq<SyntaxNode>, file: Seq<char>, path: Seq<char>, st: (Seq<NodeV>, Seq<EdgeV>)) -> (Seq<NodeV>, Seq<EdgeV>)
    decreases cs.len(),
{
    if cs.len() == 0 {
        st
    } else {
        let s1 = export_decls(cs.drop_last(), file, path, st);
        let c = cs.last();
        if c.kind@ == "variable_declarator"@ {
            match field_at(c, "value"@) {
                Some(i) => {
                    let v = c.children@[i];
                    if v.kind@ == "arrow_function"@ {
                        (publish_last(s1.0 + function_item(v, fallback_name(c), path)), s1.1)
                    } else if v.kind@ == "call_expression"@ {
                        (s1.0, s1.1 + require_edges(c, file))
                    } else {
                        s1
                    }
                },
                None => s1,
            }
        } else {
            s1
        }
    }
}

/// `export { a, b }`: each listed identifier's node (by the path as given) made public.
pub open spec fn export_names(cs: Seq<SyntaxNode>, file: Seq<char>, ns: Seq<NodeV>) -> Seq<NodeV>
    decreases cs.len(),
{
    if cs.len() == 0 {
        ns
    } else {
        let n1 = export_names(cs.drop_last(), file, ns);
        let c = cs.last();
        if c.kind@ == "identifier"@ && c.text is Some { publish_id(n1, symbol_id(file, text_of(c))) } else { n1 }
    }
}

/// What an `export` statement does: the declaration it holds, made public; else the names it
/// lists and the value it exports.
pub open spec fn export_item(n: SyntaxNode, file: Seq<char>, path: Seq<char>, st: (Seq<NodeV>, Seq<EdgeV>)) -> (Seq<NodeV>, Seq<EdgeV>) {
    match field_at(n, "declaration"@) {
        Some(i) => {
            let d = n.children@[i];
            let k = d.kind@;
            if k == "class_declaration"@ || k == "class"@ {
                let c = class_item(d, path);
                (publish_last(st.0 + c.0), st.1 + c.1)
            } else if k == "interface_declaration"@ {
                let c = interface_item(d, path);
                (publish_last(st.0 + c.0), st.1 + c.1)
            } else if k == "function_declaration"@ {
                (publish_last(st.0 + function_item(d, Seq::empty(), path)), st.1)
            } else if k == "lexical_declaration"@ || k == "variable_declaration"@ {
                export_decls(d.children@, file, path, st)
            } else {
                st
            }
        },
        None => {
            let ns = export_names(n.children@, file, st.0);
            match field_at(n, "value"@) {
                Some(i) => {
                    let v = n.children@[i];
                    let k = v.kind@;
                    if k == "identifier"@ {
                        match v.text { Some(t) => (publish_id(ns, symbol_id(path, t@)), st.1), None => (ns, st.1) }
                    } else if k == "class_declaration"@ || k == "class"@ {
                        let c = class_item(v, path);
                        (publish_last(ns + c.0), st.1 + c.1)
                    } else if k == "function_declaration"@ || k == "arrow_function"@ {
                        (publish_last(ns + function_item(v, Seq::empty(), path)), st.1)
                    } else {
                        (ns, st.1)
                    }
                },
                None => (ns, st.1),
            }
        },
    }
}

/// What one node adds, given the name its parent lends to an unnamed function.
pub open spec fn ts_item(n: SyntaxNode, fallback: Seq<char>, file: Seq<char>, path: Seq<char>, st: (Seq<NodeV>, Seq<EdgeV>)) -> (Seq<NodeV>, Seq<EdgeV>) {
    let k = n.kind@;
    if k == "import_statement"@ {
        (st.0, st.1 + import_edges(n, file))
    } else if k == "variable_declarator"@ {
        (st.0, st.1 + require_edges(n, file))
    } else if k == "class_declaration"@ || k == "class"@ {
        let c = class_item(n, path);
        (st.0 + c.0, st.1 + c.1)
    } else if k == "interface_declaration"@ {
        let c = interface_item(n, path);
        (st.0 + c.0, st.1 + c.1)
    } else if k == "function_declaration"@ || k == "arrow_function"@ {
        (st.0 + function_item(n, fallback, path), st.1)
    } else if k == "export_statement"@ {
        export_item(n, file, path, st)
    } else if k == "lexical_declaration"@ || k == "variable_declaration"@ {
        (st.0 + arrow_items(n.children@, path), st.1)
    } else {
        st
    }
}

/// Visits a node: what it adds, then, unless it is an `export`, its children from the last
/// to the first.
pub open spec fn ts_visit(n: SyntaxNode, fallback: Seq<char>, file: Seq<char>, path: Seq<char>, st: (Seq<NodeV>, Seq<EdgeV>)) -> (Seq<NodeV>, Seq<EdgeV>)
    decreases n,
{
    let st1 = ts_item(n, fallback, file, path, st);
    if n.kind@ == "export_statement"@ { st1 } else { ts_visit_back(n.children@, fallback_name(n), file, path, st1) }
}

/// Visits the nodes from the last to the first.
pub open spec fn ts_visit_back(cs: Seq<SyntaxNode>, fallback: Seq<char>, file: Seq<char>, path: Seq<char>, st: (Seq<NodeV>, Seq<EdgeV>)) -> (Seq<NodeV>, Seq<EdgeV>)
    decreases cs,
{
    if cs.len() == 0 {
        st
    } else {
        ts_visit_back(cs.drop_last(), fallback, file, path, ts_visit(cs.last(), fallback, file, path, st))
    }
}

fn is_quote_exec(c: char) -> (r: bool)
    ensures
        r == is_quote(c),
{
    c == '\'' || c == '"' || c == '`'
}

fn trim_quotes_exec(t: &String) -> (r: String)
    ensures
        r@ == trim_quotes(t@),
{
    let v = chars_of(t.as_str());
    let mut lo: usize = 0;
    let mut hi: usize = v.len();
    assert(v@.subrange(0, v@.len() as int) =~= v@);
    while lo < hi && (is_quote_exec(v[lo]) || is_quote_exec(v[hi - 1]))
        invariant
            lo <= hi <= v@.len(),
            trim_quotes(v@) == trim_quotes(v@.subrange(lo as int, hi as int)),
        decreases hi - lo,
    {
        let ghost w = v@.subrange(lo as int, hi as int);
        if is_quote_exec(v[lo]) {
            assert(w.skip(1) =~= v@.subrange(lo + 1, hi as int));
            lo = lo + 1;
        } else {
            assert(w.drop_last() =~= v@.subrange(lo as int, hi - 1));
            hi = hi - 1;
        }
    }
    let mut out: Vec<char> = Vec::new();
    let mut k: usize = lo;
    while k < hi
        invariant
            lo <= k <= hi <= v@.len(),
            out@ == v@.subrange(lo as int, k as int),
        decreases hi - k,
    {
        out.push(v[k]);
        assert(v@.subrange(lo as int, k + 1) =~= v@.subrange(lo as int, k as int).push(v@[k as int]));
        k = k + 1;
    }
    string_from_chars(out.as_slice())
}

fn text_of_exec(n: &SyntaxNode) -> (r: String)
    ensures
        r@ == text_of(*n),
{
    match &n.text {
        Some(t) => copy_string(t),
        None => String::new(),
    }
}

fn push_edge(edges: &mut Vec<Edge>, from: String, to: String, kind: EdgeKind)
    ensures
        edges_v(final(edges)@) == edges_v(old(edges)@).push(edge_v(from@, to@, kind)),
{
    edges.push(Edge { from_id: from, to_id: to, kind });
    assert(edges_v(edges@) =~= edges_v(old(edges)@).push(edge_v(from@, to@, kind)));
}

fn push_node(nodes: &mut Vec<Node>, n: Node)
    ensures
        nodes_v(final(nodes)@) == nodes_v(old(nodes)@).push(n@),
{
    nodes.push(n);
    assert(nodes_v(nodes@) =~= nodes_v(old(nodes)@).push(n@));
}

fn has_kind_exec(cs: &Vec<SyntaxNode>, k: &str) -> (r: bool)
    ensures
        r == has_kind(cs@, k@),
{
    let mut r = false;
    let mut i: usize = 0;
    while i < cs.len()
        invariant
            i <= cs@.len(),
            r == has_kind(cs@.take(i as int), k@),
        decreases cs@.len() - i,
    {
        assert(cs@.take(i + 1).drop_last() =~= cs@.take(i as int));
        r = kind_is(&cs[i], k) || r;
        i = i + 1;
    }
    assert(cs@.take(cs@.len() as int) =~= cs@);
    r
}

fn fallback_name_exec(parent: &SyntaxNode) -> (r: String)
    ensures
        r@ == fallback_name(*parent),
{
    if kind_is(parent, "variable_declarator") {
        match field_pos(parent, "name") {
            Some(i) => text_of_exec(&parent.children[i]),
            None => String::new(),
        }
    } else {
        String::new()
    }
}

fn import_edges_exec(n: &SyntaxNode, file: &String, edges: &mut Vec<Edge>)
    ensures
        edges_v(final(edges)@) == edges_v(old(edges)@) + import_edges(*n, file@),
{
    let ghost e0 = edges_v(edges@);
    if !has_kind_exec(&n.children, "type") {
        match field_pos(n, "source") {
            Some(i) => {
                let s = &n.children[i];
                if kind_is(s, "string") {
                    match &s.text {
                        Some(t) => push_edge(edges, copy_string(file), trim_quotes_exec(t), EdgeKind::Imports),
                        None => {},
                    }
                }
            },
            None => {},
        }
    }
    assert(edges_v(edges@) =~= e0 + import_edges(*n, file@));
}

fn string_edges_exec(cs: &Vec<SyntaxNode>, file: &String, edges: &mut Vec<Edge>)
    ensures
        edges_v(final(edges)@) == edges_v(old(edges)@) + string_edges(cs@, file@),
{
    let ghost e0 = edges_v(edges@);
    let mut i: usize = 0;
    while i < cs.len()
        invariant
            i <= cs@.len(),
            edges_v(edges@) == e0 + string_edges(cs@.take(i as int), file@),
        decreases cs@.len() - i,
    {
        assert(cs@.take(i + 1).drop_last() =~= cs@.take(i as int));
        let c = &cs[i];
        if kind_is(c, "string") {
            match &c.text {
                Some(t) => push_edge(edges, copy_string(file), trim_quotes_exec(t), EdgeKind::Imports),
                None => {},
            }
        }
        i = i + 1;
        assert(edges_v(edges@) =~= e0 + string_edges(cs@.take(i as int), file@));
    }
    assert(cs@.take(cs@.len() as int) =~= cs@);
}

fn require_edges_exec(d: &SyntaxNode, file: &String, edges: &mut Vec<Edge>)
    ensures
        edges_v(final(edges)@) == edges_v(old(edges)@) + require_edges(*d, file@),
{
    let ghost e0 = edges_v(edges@);
    proof {
        reveal_strlit("require");
    }
    match field_pos(d, "value") {
        Some(i) => {
            let call = &d.children[i];
            if kind_is(call, "call_expression") {
                match field_pos(call, "function") {
                    Some(j) => {
                        let is_require = match &call.children[j].text {
                            Some(t) => same_text(t, &to_owned_string("require")),
                            None => false,
                        };
                        if is_require {
                            match field_pos(call, "arguments") {
                                Some(k) => string_edges_exec(&call.children[k].children, file, edges),
                                None => {},
                            }
                        }
                    },
                    None => {},
                }
            }
        },
        None => {},
    }
    assert(edges_v(edges@) =~= e0 + require_edges(*d, file@));
}

fn ident_edges_exec(cs: &Vec<SyntaxNode>, id: &String, path: &String, edges: &mut Vec<Edge>)
    ensures
        edges_v(final(edges)@) == edges_v(old(edges)@) + ident_edges(cs@, id@, path@),
{
    let ghost e0 = edges_v(edges@);
    let mut i: usize = 0;
    while i < cs.len()
        invariant
            i <= cs@.len(),
            edges_v(edges@) == e0 + ident_edges(cs@.take(i as int), id@, path@),
        decreases cs@.len() - i,
    {
        assert(cs@.take(i + 1).drop_last() =~= cs@.take(i as int));
        let c = &cs[i];
        if kind_is(c, "identifier") || kind_is(c, "type_identifier") {
            match &c.text {
                Some(t) => push_edge(edges, copy_string(id), make_symbol_id(path, t), EdgeKind::Inherits),
                None => {},
            }
        }
        i = i + 1;
        assert(edges_v(edges@) =~= e0 + ident_edges(cs@.take(i as int), id@, path@));
    }
    assert(cs@.take(cs@.len() as int) =~= cs@);
}

fn extends_edges_exec(cs: &Vec<SyntaxNode>, id: &String, path: &String, edges: &mut Vec<Edge>)
    ensures
        edges_v(final(edges)@) == edges_v(old(edges)@) + extends_edges(cs@, id@, path@),
{
    let ghost e0 = edges_v(edges@);
    let mut i: usize = 0;
    while i < cs.len()
        invariant
            i <= cs@.len(),
            edges_v(edges@) == e0 + extends_edges(cs@.take(i as int), id@, path@),
        decreases cs@.len() - i,
    {
        assert(cs@.take(i + 1).drop_last() =~= cs@.take(i as int));
        let c = &cs[i];
        if kind_is(c, "extends_clause") {
            ident_edges_exec(&c.children, id, path, edges);
        }
        i = i + 1;
        assert(edges_v(edges@) =~= e0 + extends_edges(cs@.take(i as int), id@, path@));
    }
    assert(cs@.take(cs@.len() as int) =~= cs@);
}

fn heritage_edges_exec(cs: &Vec<SyntaxNode>, id: &String, path: &String, edges: &mut Vec<Edge>)
    ensures
        edges_v(final(edges)@) == edges_v(old(edges)@) + heritage_edges(cs@, id@, path@),
{
    let ghost e0 = edges_v(edges@);
    let mut i: usize = 0;
    while i < cs.len()
        invariant
            i <= cs@.len(),
            edges_v(edges@) == e0 + heritage_edges(cs@.take(i as int), id@, path@),
        decreases cs@.len() - i,
    {
        assert(cs@.take(i + 1).drop_last() =~= cs@.take(i as int));
        let c = &cs[i];
        if kind_is(c, "class_heritage") {
            extends_edges_exec(&c.children, id, path, edges);
        }
        i = i + 1;
        assert(edges_v(edges@) =~= e0 + heritage_edges(cs@.take(i as int), id@, path@));
    }
    assert(cs@.take(cs@.len() as int) =~= cs@);
}

fn interface_edges_exec(cs: &Vec<SyntaxNode>, id: &String, path: &String, edges: &mut Vec<Edge>)
    ensures
        edges_v(final(edges)@) == edges_v(old(edges)@) + interface_edges(cs@, id@, path@),
{
    let ghost e0 = edges_v(edges@);
    let mut i: usize = 0;
    while i < cs.len()
        invariant
            i <= cs@.len(),
            edges_v(edges@) == e0 + interface_edges(cs@.take(i as int), id@, path@),
        decreases cs@.len() - i,
    {
        assert(cs@.take(i + 1).drop_last() =~= cs@.take(i as int));
        let c = &cs[i];
        if kind_is(c, "extends_type_clause") {
            ident_edges_exec(&c.children, id, path, edges);
        }
        i = i + 1;
        assert(edges_v(edges@) =~= e0 + interface_edges(cs@.take(i as int), id@, path@));
    }
    assert(cs@.take(cs@.len() as int) =~= cs@);
}

fn class_item_exec(n: &SyntaxNode, path: &String, nodes: &mut Vec<Node>, edges: &mut Vec<Edge>)
    ensures
        nodes_v(final(nodes)@) == nodes_v(old(nodes)@) + class_item(*n, path@).0,
        edges_v(final(edges)@) == edges_v(old(edges)@) + class_item(*n, path@).1,
{
    let ghost n0 = nodes_v(nodes@);
    let ghost e0 = edges_v(edges@);
    match field_pos(n, "name") {
        Some(i) => match &n.children[i].text {
            Some(t) => {
                let id = make_symbol_id(path, t);
                push_node(nodes, Node {
                    id: copy_string(&id),
                    label: copy_string(t),
                    kind: NodeKind::Class,
                    file_path: copy_string(path),
                    line: line_from_row(n.row),
                    is_public: false,
                    parent_id: None,
                });
                heritage_edges_exec(&n.children, &id, path, edges);
            },
            None => {},
        },
        None => {},
    }
    assert(nodes_v(nodes@) =~= n0 + class_item(*n, path@).0);
    assert(edges_v(edges@) =~= e0 + class_item(*n, path@).1);
}

fn interface_item_exec(n: &SyntaxNode, path: &String, nodes: &mut Vec<Node>, edges: &mut Vec<Edge>)
    ensures
        nodes_v(final(nodes)@) == nodes_v(old(nodes)@) + interface_item(*n, path@).0,
        edges_v(final(edges)@) == edges_v(old(edges)@) + interface_item(*n, path@).1,
{
    let ghost n0 = nodes_v(nodes@);
    let ghost e0 = edges_v(edges@);
    match field_pos(n, "name") {
        Some(i) => match &n.children[i].text {
            Some(t) => {
                let id = make_symbol_id(path, t);
                push_node(nodes, Node {
                    id: copy_string(&id),
                    label: copy_string(t),
                    kind: NodeKind::Interface,
                    file_path: copy_string(path),
                    line: line_from_row(n.row),
                    is_public: false,
                    parent_id: None,
                });
                interface_edges_exec(&n.children, &id, path, edges);
            },
            None => {},
        },
        None => {},
    }
    assert(nodes_v(nodes@) =~= n0 + interface_item(*n, path@).0);
    assert(edges_v(edges@) =~= e0 + interface_item(*n, path@).1);
}

fn function_item_exec(n: &SyntaxNode, fallback: &String, path: &String, nodes: &mut Vec<Node>)
    ensures
        nodes_v(final(nodes)@) == nodes_v(old(nodes)@) + function_item(*n, fallback@, path@),
{
    let ghost n0 = nodes_v(nodes@);
    let name = match field_pos(n, "name") {
        Some(i) => text_of_exec(&n.children[i]),
        None => copy_string(fallback),
    };
    if chars_of(name.as_str()).len() > 0 {
        let is_async = has_kind_exec(&n.children, "async");
        push_node(nodes, Node {
            id: make_symbol_id(path, &name),
            label: name,
            kind: NodeKind::Function { is_async },
            file_path: copy_string(path),
            line: line_from_row(n.row),
            is_public: false,
            parent_id: None,
        });
    }
    assert(nodes_v(nodes@) =~= n0 + function_item(*n, fallback@, path@));
}

fn arrow_items_exec(cs: &Vec<SyntaxNode>, path: &String, nodes: &mut Vec<Node>)
    ensures
        nodes_v(final(nodes)@) == nodes_v(old(nodes)@) + arrow_items(cs@, path@),
{
    let ghost n0 = nodes_v(nodes@);
    let mut i: usize = 0;
    while i < cs.len()
        invariant
            i <= cs@.len(),
            nodes_v(nodes@) == n0 + arrow_items(cs@.take(i as int), path@),
        decreases cs@.len() - i,
    {
        assert(cs@.take(i + 1).drop_last() =~= cs@.take(i as int));
        let c = &cs[i];
        if kind_is(c, "variable_declarator") {
            match field_pos(c, "value") {
                Some(k) => {
                    if kind_is(&c.children[k], "arrow_function") {
                        let fb = fallback_name_exec(c);
                        function_item_exec(&c.children[k], &fb, path, nodes);
                    }
                },
                None => {},
            }
        }
        i = i + 1;
        assert(nodes_v(nodes@) =~= n0 + arrow_items(cs@.take(i as int), path@));
    }
    assert(cs@.take(cs@.len() as int) =~= cs@);
}

fn published(n: &Node) -> (r: Node)
    ensures
        r@ == (NodeV { is_public: true, ..n@ }),
{
    Node {
        id: copy_string(&n.id),
        label: copy_string(&n.label),
        kind: n.kind,
        file_path: copy_string(&n.file_path),
        line: n.line,
        is_public: true,
        parent_id: match &n.parent_id {
            Some(p) => Some(copy_string(p)),
            None => None,
        },
    }
}

fn publish_last_exec(nodes: &mut Vec<Node>)
    ensures
        nodes_v(final(nodes)@) == publish_last(nodes_v(old(nodes)@)),
{
    let ghost n0 = nodes_v(nodes@);
    if nodes.len() > 0 {
        let k = nodes.len() - 1;
        let x = published(&nodes[k]);
        nodes.set(k, x);
        assert(nodes_v(nodes@) =~= publish_last(n0));
    } else {
        assert(nodes_v(nodes@) =~= publish_last(n0));
    }
}

fn publish_id_exec(nodes: &mut Vec<Node>, id: &String)
    ensures
        nodes_v(final(nodes)@) == publish_id(nodes_v(old(nodes)@), id@),
{
    let ghost n0 = nodes_v(nodes@);
    let mut i: usize = 0;
    while i < nodes.len()
        invariant
            i <= nodes@.len(),
            nodes@.len() == n0.len(),
            forall|j: int| 0 <= j < i ==> #[trigger] nodes_v(nodes@)[j]
                == (if n0[j].id == id@ { NodeV { is_public: true, ..n0[j] } } else { n0[j] }),
            forall|j: int| i <= j < n0.len() ==> #[trigger] nodes_v(nodes@)[j] == n0[j],
        decreases nodes@.len() - i,
    {
        let ghost before = nodes_v(nodes@);
        assert(before[i as int] == n0[i as int]);
        if same_text(&nodes[i].id, id) {
            let x = published(&nodes[i]);
            nodes.set(i, x);
            assert(nodes_v(nodes@) =~= before.update(i as int, x@));
        }
        i = i + 1;
    }
    assert(nodes_v(nodes@) =~= publish_id(n0, id@));
}

fn export_decls_exec(cs: &Vec<SyntaxNode>, file: &String, path: &String, nodes: &mut Vec<Node>, edges: &mut Vec<Edge>)
    ensures
        (nodes_v(final(nodes)@), edges_v(final(edges)@)) == export_decls(cs@, file@, path@, (nodes_v(old(nodes)@), edges_v(old(edges)@))),
{
    let ghost st0 = (nodes_v(nodes@), edges_v(edges@));
    let mut i: usize = 0;
    while i < cs.len()
        invariant
            i <= cs@.len(),
            (nodes_v(nodes@), edges_v(edges@)) == export_decls(cs@.take(i as int), file@, path@, st0),
        decreases cs@.len() - i,
    {
        assert(cs@.take(i + 1).drop_last() =~= cs@.take(i as int));
        assert(cs@.take(i + 1).last() == cs@[i as int]);
        let c = &cs[i];
        if kind_is(c, "variable_declarator") {
            match field_pos(c, "value") {
                Some(k) => {
                    let v = &c.children[k];
                    if kind_is(v, "arrow_function") {
                        let fb = fallback_name_exec(c);
                        function_item_exec(v, &fb, path, nodes);
                        publish_last_exec(nodes);
                    } else if kind_is(v, "call_expression") {
                        require_edges_exec(c, file, edges);
                    }
                },
                None => {},
            }
        }
        i = i + 1;
    }
    assert(cs@.take(cs@.len() as int) =~= cs@);
}

fn export_names_exec(cs: &Vec<SyntaxNode>, file: &String, nodes: &mut Vec<Node>)
    ensures
        nodes_v(final(nodes)@) == export_names(cs@, file@, nodes_v(old(nodes)@)),
{
    let ghost n0 = nodes_v(nodes@);
    let mut i: usize = 0;
    while i < cs.len()
        invariant
            i <= cs@.len(),
            nodes_v(nodes@) == export_names(cs@.take(i as int), file@, n0),
        decreases cs@.len() - i,
    {
        assert(cs@.take(i + 1).drop_last() =~= cs@.take(i as int));
        assert(cs@.take(i + 1).last() == cs@[i as int]);
        let c = &cs[i];
        if kind_is(c, "identifier") {
            match &c.text {
                Some(t) => {
                    let target = make_symbol_id(file, t);
                    publish_id_exec(nodes, &target);
                },
                None => {},
            }
        }
        i = i + 1;
    }
    assert(cs@.take(cs@.len() as int) =~= cs@);
}

fn export_item_exec(n: &SyntaxNode, file: &String, path: &String, nodes: &mut Vec<Node>, edges: &mut Vec<Edge>)
    ensures
        (nodes_v(final(nodes)@), edges_v(final(edges)@)) == export_item(*n, file@, path@, (nodes_v(old(nodes)@), edges_v(old(edges)@))),
{
    let ghost st = (nodes_v(nodes@), edges_v(edges@));
    let empty = String::new();
    match field_pos(n, "declaration") {
        Some(i) => {
            let d = &n.children[i];
            if kind_is(d, "class_declaration") || kind_is(d, "class") {
                class_item_exec(d, path, nodes, edges);
                publish_last_exec(nodes);
            } else if kind_is(d, "interface_declaration") {
                interface_item_exec(d, path, nodes, edges);
                publish_last_exec(nodes);
            } else if kind_is(d, "function_declaration") {
                function_item_exec(d, &empty, path, nodes);
                publish_last_exec(nodes);
            } else if kind_is(d, "lexical_declaration") || kind_is(d, "variable_declaration") {
                export_decls_exec(&d.children, file, path, nodes, edges);
            }
        },
        None => {
            export_names_exec(&n.children, file, nodes);
            match field_pos(n, "value") {
                Some(i) => {
                    let v = &n.children[i];
                    if kind_is(v, "identifier") {
                        match &v.text {
                            Some(t) => {
                                let target = make_symbol_id(path, t);
                                publish_id_exec(nodes, &target);
                            },
                            None => {},
                        }
                    } else if kind_is(v, "class_declaration") || kind_is(v, "class") {
                        class_item_exec(v, path, nodes, edges);
                        publish_last_exec(nodes);
                    } else if kind_is(v, "function_declaration") || kind_is(v, "arrow_function") {
                        function_item_exec(v, &empty, path, nodes);
                        publish_last_exec(nodes);
                    }
                },
                None => {},
            }
        },
    }
}

fn ts_item_exec(n: &SyntaxNode, fallback: &String, file: &String, path: &String, nodes: &mut Vec<Node>, edges: &mut Vec<Edge>)
    ensures
        (nodes_v(final(nodes)@), edges_v(final(edges)@))
            == ts_item(*n, fallback@, file@, path@, (nodes_v(old(nodes)@), edges_v(old(edges)@))),
{
    let ghost n0 = nodes_v(nodes@);
    let ghost e0 = edges_v(edges@);
    if kind_is(n, "import_statement") {
        import_edges_exec(n, file, edges);
    } else if kind_is(n, "variable_declarator") {
        require_edges_exec(n, file, edges);
    } else if kind_is(n, "class_declaration") || kind_is(n, "class") {
        class_item_exec(n, path, nodes, edges);
    } else if kind_is(n, "interface_declaration") {
        interface_item_exec(n, path, nodes, edges);
    } else if kind_is(n, "function_declaration") || kind_is(n, "arrow_function") {
        function_item_exec(n, fallback, path, nodes);
    } else if kind_is(n, "export_statement") {
        export_item_exec(n, file, path, nodes, edges);
    } else if kind_is(n, "lexical_declaration") || kind_is(n, "variable_declaration") {
        arrow_items_exec(&n.children, path, nodes);
    }
}

fn ts_visit_exec(n: &SyntaxNode, fallback: &String, file: &String, path: &String, nodes: &mut Vec<Node>, edges: &mut Vec<Edge>)
    ensures
        (nodes_v(final(nodes)@), edges_v(final(edges)@))
            == ts_visit(*n, fallback@, file@, path@, (nodes_v(old(nodes)@), edges_v(old(edges)@))),
    decreases n,
{
    ts_item_exec(n, fallback, file, path, nodes, edges);
    if !kind_is(n, "export_statement") {
        let fb = fallback_name_exec(n);
        proof {
            assert(decreases_to!(*n => n.children));
        }
        ts_visit_back_exec(&n.children, &fb, file, path, nodes, edges);
    }
}

fn ts_visit_back_exec(cs: &Vec<SyntaxNode>, fallback: &String, file: &String, path: &String, nodes: &mut Vec<Node>,
    edges: &mut Vec<Edge>)
    ensures
        (nodes_v(final(nodes)@), edges_v(final(edges)@))
            == ts_visit_back(cs@, fallback@, file@, path@, (nodes_v(old(nodes)@), edges_v(old(edges)@))),
    decreases cs,
{
    let ghost st0 = (nodes_v(nodes@), edges_v(edges@));
    let mut i: usize = cs.len();
    assert(cs@.take(i as int) =~= cs@);
    while i > 0
        invariant
            i <= cs@.len(),
            ts_visit_back(cs@, fallback@, file@, path@, st0)
                == ts_visit_back(cs@.take(i as int), fallback@, file@, path@, (nodes_v(nodes@), edges_v(edges@))),
        decreases i,
    {
        assert(cs@.take(i as int).drop_last() =~= cs@.take(i - 1));
        assert(cs@.take(i as int).last() == cs@[i - 1]);
        proof {
            assert(decreases_to!(cs => cs@));
            assert(decreases_to!(cs@ => cs@[i - 1]));
        }
        ts_visit_exec(&cs[i - 1], fallback, file, path, nodes, edges);
        i = i - 1;
    }
}

/// Whether the graph is the one extracted from the TypeScript syntax tree of the file: what
/// the walk from the root gathers; ids and node paths use the normalized path.
pub open spec fn is_typescript_graph(g: CodeGraph, root: SyntaxNode, file: Seq<char>) -> bool {
    let path = file.map_values(|c: char| forward_slash(c));
    let st = ts_visit(root, Seq::empty(), file, path, (seq![], seq![]));
    &&& g.nv() == st.0
    &&& g.ev() == st.1
    &&& g.control_flow@.len() == 0
    &&& fresh_meta(g.meta, "typescript"@, g.nodes@.len(), g.edges@.len())
}

/// Extracts the graph of a TypeScript or JavaScript file from its syntax tree.
pub fn extract_typescript(root: &SyntaxNode, file_path: &str) -> (g: CodeGraph)
    ensures
        is_typescript_graph(g, *root, file_path@),
{
    let file = to_owned_string(file_path);
    let path = normalize_path(file_path);
    let mut nodes: Vec<Node> = Vec::new();
    let mut edges: Vec<Edge> = Vec::new();
    assert(nodes_v(nodes@) =~= Seq::<NodeV>::empty());
    assert(edges_v(edges@) =~= Seq::<EdgeV>::empty());
    ts_visit_exec(root, &String::new(), &file, &path, &mut nodes, &mut edges);
    let mut meta = new_meta("typescript");
    meta.node_count = nodes.len();
    meta.edge_count = edges.len();
    CodeGraph { nodes, edges, control_flow: Vec::new(), meta }
}

/// Whether the path ends with the suffix.
pub open spec fn ends_with(s: Seq<char>, suffix: Seq<char>) -> bool {
    s.len() >= suffix.len() && occurs_at(s, suffix, s.len() - suffix.len())
}

/// Whether a file is read with the TSX grammar: its path ends in `.tsx` or `.jsx`.
pub open spec fn is_tsx(file: Seq<char>) -> bool {
    ends_with(file, ".tsx"@) || ends_with(file, ".jsx"@)
}

fn ends_with_exec(s: &Vec<char>, suffix: &str) -> (r: bool)
    ensures
        r == ends_with(s@, suffix@),
{
    let p = chars_of(suffix);
    if s.len() >= p.len() {
        matches_at(s.as_slice(), s.len() - p.len(), p.as_slice())
    } else {
        false
    }
}

/// Whether a file is read with the TSX grammar.
pub fn is_tsx_path(file_path: &str) -> (r: bool)
    ensures
        r == is_tsx(file_path@),
{
    let v = chars_of(file_path);
    ends_with_exec(&v, ".tsx") || ends_with_exec(&v, ".jsx")
}

/// A parser for the TypeScript and JavaScript programming languages.
pub struct TypeScriptParser;

impl TypeScriptParser {
    /// Creates a new parser.
    pub fn new() -> Self {
        TypeScriptParser
    }
}

impl Default for TypeScriptParser {
    fn default() -> Self {
        TypeScriptParser
    }
}

impl LanguageParser for TypeScriptParser {
    open spec fn claimed_extensions(&self) -> Seq<Seq<char>> {
        seq!["ts"@, "tsx"@, "js"@, "jsx"@, "mjs"@, "cjs"@]
    }

    open spec fn parses_to(&self, source: Seq<char>, file_path: Seq<char>, r: Result<CodeGraph, ParseError>) -> bool {
        &&& r is Ok
        &&& r matches Ok(g) ==> exists|t: SyntaxNode|
            tree_of_source(t, if is_tsx(file_path) { TSX_GRAMMAR } else { TYPESCRIPT_GRAMMAR }, source)
            && #[trigger] is_typescript_graph(g, t, file_path)
    }

    fn language_name(&self) -> (r: &str)
        ensures
            r@ == "typescript"@,
    {
        "typescript"
    }

    fn supported_extensions(&self) -> (r: &[&str])
        ensures
            r@.map_values(|e: &str| e@) == seq!["ts"@, "tsx"@, "js"@, "jsx"@, "mjs"@, "cjs"@],
    {
        let r: &[&str] = &["ts", "tsx", "js", "jsx", "mjs", "cjs"];
        assert(r@.map_values(|e: &str| e@) =~= seq!["ts"@, "tsx"@, "js"@, "jsx"@, "mjs"@, "cjs"@]);
        r
    }

    fn parse(&self, source: &str, file_path: &str) -> (r: Result<CodeGraph, ParseError>)
        ensures
            r is Ok,
            r matches Ok(g) ==> exists|t: SyntaxNode|
                tree_of_source(t, if is_tsx(file_path@) { TSX_GRAMMAR } else { TYPESCRIPT_GRAMMAR }, source@)
                && #[trigger] is_typescript_graph(g, t, file_path@),
    {
        let grammar = if is_tsx_path(file_path) { tsx_grammar() } else { typescript_grammar() };
        match parse_syntax(&grammar, source) {
            Ok(root) => {
                let g = extract_typescript(&root, file_path);
                let r: Result<CodeGraph, ParseError> = Ok(g);
                assert(is_typescript_graph(r->Ok_0, root, file_path@));
                r
            },
            Err(why) => {
                let mut message = to_owned_string("Failed to set TypeScript language: ");
                push_str(&mut message, why.as_str());
                Err(ParseError { message, file_path: to_owned_string(file_path), line: None })
            },
        }
    }
}

} // verus!
