//! The Go extractor: files, imports, structs, interfaces, embedding, functions and methods.

use vstd::prelude::*;
use crate::extract::{edge_v, fresh_meta, last_segment, last_segment_exec, line_from_row, line_of, make_symbol_id, new_meta, starts_upper, starts_upper_exec, symbol_id, symbol_node, text_is};
use crate::gomod::{resolve_import_path, resolve_import_spec};
use crate::ir::{CodeGraph, Edge, EdgeKind, EdgeV, Node, NodeKind, NodeV, edges_v, nodes_v, opt_view};
use crate::parser::{LanguageParser, ParseError};
use crate::path_utils::{forward_slash, normalize_path};
use crate::syntax::{GO_GRAMMAR, SyntaxNode, child_by_field, field_child, go_grammar, kind_is, parse_syntax, text_of, tree_of_source};
use crate::text::{chars_of, copy_string, string_from_chars, to_owned_string};

verus! {

/// The text without the given character at either end.
pub open spec fn trim_char(s: Seq<char>, c: char) -> Seq<char>
    decreases s.len(),
{
    if s.len() > 0 && s[0] == c {
        trim_char(s.skip(1), c)
    } else if s.len() > 0 && s.last() == c {
        trim_char(s.drop_last(), c)
    } else {
        s
    }
}

/// The text without the given character at either end.
pub fn trim_char_exec(s: &String, c: char) -> (r: String)
    ensures
        r@ == trim_char(s@, c),
{
    let v = chars_of(s.as_str());
    let mut lo: usize = 0;
    let mut hi: usize = v.len();
    assert(v@.subrange(0, v@.len() as int) =~= v@);
    while lo < hi && (v[lo] == c || v[hi - 1] == c)
        invariant
            lo <= hi <= v@.len(),
            trim_char(v@, c) == trim_char(v@.subrange(lo as int, hi as int), c),
        decreases hi - lo,
    {
        let ghost w = v@.subrange(lo as int, hi as int);
        if v[lo] == c {
            assert(w.skip(1) =~= v@.subrange(lo + 1, hi as int));
            lo = lo + 1;
        } else {
            assert(w.drop_last() =~= v@.subrange(lo as int, hi - 1));
            hi = hi - 1;
        }
    }
    let mut r: Vec<char> = Vec::new();
    let mut k: usize = lo;
    while k < hi
        invariant
            lo <= k <= hi <= v@.len(),
            r@ == v@.subrange(lo as int, k as int),
        decreases hi - k,
    {
        r.push(v[k]);
        assert(v@.subrange(lo as int, k + 1) =~= v@.subrange(lo as int, k as int).push(v@[k as int]));
        k = k + 1;
    }
    string_from_chars(r.as_slice())
}

/// The edge of one import spec: none for a blank import, an import of "C", or a spec
/// without a readable path.
pub open spec fn go_import_spec(s: SyntaxNode, file: Seq<char>, gm: Option<Seq<char>>) -> Seq<EdgeV> {
    let blank = match field_child(s, "name"@) {
        Some(n) => n.text matches Some(t) && t@ == "_"@,
        None => false,
    };
    if blank {
        seq![]
    } else {
        match field_child(s, "path"@) {
            Some(p) => match p.text {
                Some(t) => {
                    let clean = trim_char(t@, '"');
                    if clean == "C"@ { seq![] } else { seq![edge_v(file, resolve_import_spec(clean, gm), EdgeKind::Imports)] }
                },
                None => seq![],
            },
            None => seq![],
        }
    }
}

/// The edges of the import specs of a list.
pub open spec fn go_import_list(cs: Seq<SyntaxNode>, file: Seq<char>, gm: Option<Seq<char>>) -> Seq<EdgeV>
    decreases cs.len(),
{
    if cs.len() == 0 {
        seq![]
    } else {
        go_import_list(cs.drop_last(), file, gm)
            + if cs.last().kind@ == "import_spec"@ { go_import_spec(cs.last(), file, gm) } else { seq![] }
    }
}

/// The edges of an import declaration's children.
pub open spec fn go_import_decl(cs: Seq<SyntaxNode>, file: Seq<char>, gm: Option<Seq<char>>) -> Seq<EdgeV>
    decreases cs.len(),
{
    if cs.len() == 0 {
        seq![]
    } else {
        let c = cs.last();
        go_import_decl(cs.drop_last(), file, gm) + if c.kind@ == "import_spec"@ {
            go_import_spec(c, file, gm)
        } else if c.kind@ == "import_spec_list"@ {
            go_import_list(c.children@, file, gm)
        } else {
            seq![]
        }
    }
}

/// The embedded type of a field declaration, where it is one: a field without a name,
/// with a readable type.
pub open spec fn go_embedded(f: SyntaxNode) -> Option<Seq<char>> {
    if f.kind@ == "field_declaration"@ && field_child(f, "name"@) is None {
        match field_child(f, "type"@) {
            Some(t) => match t.text { Some(x) => Some(x@), None => None },
            None => None,
        }
    } else {
        None
    }
}

/// The `Inherits` edges of the embedded types among field declarations.
pub open spec fn go_embedded_edges(fs: Seq<SyntaxNode>, id: Seq<char>, path: Seq<char>) -> Seq<EdgeV>
    decreases fs.len(),
{
    if fs.len() == 0 {
        seq![]
    } else {
        go_embedded_edges(fs.drop_last(), id, path) + match go_embedded(fs.last()) {
            Some(t) => seq![edge_v(id, symbol_id(path, t), EdgeKind::Inherits)],
            None => seq![],
        }
    }
}

/// The `Inherits` edges of a struct type's field declaration lists.
pub open spec fn go_struct_edges(cs: Seq<SyntaxNode>, id: Seq<char>, path: Seq<char>) -> Seq<EdgeV>
    decreases cs.len(),
{
    if cs.len() == 0 {
        seq![]
    } else {
        go_struct_edges(cs.drop_last(), id, path) + if cs.last().kind@ == "field_declaration_list"@ {
            go_embedded_edges(cs.last().children@, id, path)
        } else {
            seq![]
        }
    }
}

/// The node kind of a type spec's type, where it is a struct or an interface.
pub open spec fn go_type_kind(t: SyntaxNode) -> Option<NodeKind> {
    if t.kind@ == "struct_type"@ {
        Some(NodeKind::Class)
    } else if t.kind@ == "interface_type"@ {
        Some(NodeKind::Interface)
    } else {
        None
    }
}

/// What a type spec gives: the node of a struct or interface, and a struct's embedding edges.
pub open spec fn go_type_spec(s: SyntaxNode, path: Seq<char>) -> (Seq<NodeV>, Seq<EdgeV>) {
    match field_child(s, "name"@) {
        Some(name) => match name.text {
            Some(n) => match field_child(s, "type"@) {
                Some(t) => match go_type_kind(t) {
                    Some(k) => {
                        let id = symbol_id(path, n@);
                        (seq![symbol_node(id, n@, k, path, line_of(name.row), starts_upper(n@), None)],
                         if k == NodeKind::Class { go_struct_edges(t.children@, id, path) } else { seq![] })
                    },
                    None => (seq![], seq![]),
                },
                None => (seq![], seq![]),
            },
            None => (seq![], seq![]),
        },
        None => (seq![], seq![]),
    }
}

/// What a type declaration's children give.
pub open spec fn go_type_decl(cs: Seq<SyntaxNode>, path: Seq<char>) -> (Seq<NodeV>, Seq<EdgeV>)
    decreases cs.len(),
{
    if cs.len() == 0 {
        (seq![], seq![])
    } else {
        let prev = go_type_decl(cs.drop_last(), path);
        let cur = if cs.last().kind@ == "type_spec"@ { go_type_spec(cs.last(), path) } else { (seq![], seq![]) };
        (prev.0 + cur.0, prev.1 + cur.1)
    }
}

/// The node of a function declaration; `main` counts as public.
pub open spec fn go_function(f: SyntaxNode, path: Seq<char>) -> Seq<NodeV> {
    match field_child(f, "name"@) {
        Some(name) => match name.text {
            Some(n) => seq![symbol_node(symbol_id(path, n@), n@, NodeKind::Function { is_async: false }, path,
                line_of(name.row), n@ == "main"@ || starts_upper(n@), None)],
            None => seq![],
        },
        None => seq![],
    }
}

/// The last readable type identifier among the children of a pointer type.
pub open spec fn go_pointee(cs: Seq<SyntaxNode>) -> Option<Seq<char>>
    decreases cs.len(),
{
    if cs.len() == 0 {
        None
    } else {
        let c = cs.last();
        if c.kind@ == "type_identifier"@ && c.text is Some {
            Some(text_of(c))
        } else {
            go_pointee(cs.drop_last())
        }
    }
}

/// The type name that a receiver parameter gives, where it gives one.
pub open spec fn go_param_type(p: SyntaxNode) -> Option<Seq<char>> {
    if p.kind@ == "parameter_declaration"@ {
        match field_child(p, "type"@) {
            Some(t) => if t.kind@ == "pointer_type"@ {
                go_pointee(t.children@)
            } else if t.kind@ == "type_identifier"@ && t.text is Some {
                Some(text_of(t))
            } else {
                None
            },
            None => None,
        }
    } else {
        None
    }
}

/// The receiver's type name: the last one its parameters give, or nothing.
pub open spec fn go_receiver(cs: Seq<SyntaxNode>) -> Seq<char>
    decreases cs.len(),
{
    if cs.len() == 0 {
        Seq::empty()
    } else {
        match go_param_type(cs.last()) {
            Some(t) => t,
            None => go_receiver(cs.drop_last()),
        }
    }
}

/// The node of a method declaration, its id qualified by the receiver's type.
pub open spec fn go_method(m: SyntaxNode, path: Seq<char>) -> Seq<NodeV> {
    match field_child(m, "name"@) {
        Some(name) => match name.text {
            Some(n) => {
                let recv = match field_child(m, "receiver"@) {
                    Some(r) => go_receiver(r.children@),
                    None => Seq::empty(),
                };
                let id = if recv.len() == 0 { symbol_id(path, n@) } else { symbol_id(symbol_id(path, recv), n@) };
                seq![symbol_node(id, n@, NodeKind::Function { is_async: false }, path, line_of(name.row),
                    starts_upper(n@), None)]
            },
            None => seq![],
        },
        None => seq![],
    }
}

/// What one top-level declaration gives.
pub open spec fn go_decl(c: SyntaxNode, file: Seq<char>, path: Seq<char>, gm: Option<Seq<char>>) -> (Seq<NodeV>, Seq<EdgeV>) {
    if c.kind@ == "import_declaration"@ {
        (seq![], go_import_decl(c.children@, file, gm))
    } else if c.kind@ == "type_declaration"@ {
        go_type_decl(c.children@, path)
    } else if c.kind@ == "function_declaration"@ {
        (go_function(c, path), seq![])
    } else if c.kind@ == "method_declaration"@ {
        (go_method(c, path), seq![])
    } else {
        (seq![], seq![])
    }
}

/// What the top-level declarations give, in order.
pub open spec fn go_decls(cs: Seq<SyntaxNode>, file: Seq<char>, path: Seq<char>, gm: Option<Seq<char>>) -> (Seq<NodeV>, Seq<EdgeV>)
    decreases cs.len(),
{
    if cs.len() == 0 {
        (seq![], seq![])
    } else {
        let prev = go_decls(cs.drop_last(), file, path, gm);
        let cur = go_decl(cs.last(), file, path, gm);
        (prev.0 + cur.0, prev.1 + cur.1)
    }
}

/// The node of the file itself.
pub open spec fn go_file_node(path: Seq<char>) -> NodeV {
    symbol_node(path, last_segment(path), NodeKind::File, path, None, true, None)
}

fn push_edge(edges: &mut Vec<Edge>, from: String, to: String, kind: EdgeKind)
    ensures
        edges_v(final(edges)@) == edges_v(old(edges)@).push(edge_v(from@, to@, kind)),
{
    edges.push(Edge { from_id: from, to_id: to, kind });
    assert(edges_v(edges@) =~= edges_v(old(edges)@).push(edge_v(from@, to@, kind)));
}

fn push_node(nodes: &mut Vec<Node>, n: Node)
    ensures
        nodes_v(final(nodes)@) == nodes_v(old(nodes)@).push(n@),
{
    nodes.push(n);
    assert(nodes_v(nodes@) =~= nodes_v(old(nodes)@).push(n@));
}

fn go_import_spec_exec(s: &SyntaxNode, file: &String, go_mod: &Option<String>, edges: &mut Vec<Edge>)
    ensures
        edges_v(final(edges)@) == edges_v(old(edges)@) + go_import_spec(*s, file@, opt_view(*go_mod)),
{
    proof {
        reveal_strlit("_");
        reveal_strlit("C");
    }
    match child_by_field(s, "name") {
        Some(n) => {
            if text_is(n, "_") {
                assert(edges_v(edges@) =~= edges_v(old(edges)@) + go_import_spec(*s, file@, opt_view(*go_mod)));
                return;
            }
        },
        None => {},
    }
    match child_by_field(s, "path") {
        Some(p) => match &p.text {
            Some(t) => {
                let clean = trim_char_exec(t, '"');
                let cv = chars_of(clean.as_str());
                if cv.len() == 1 && cv[0] == 'C' {
                    assert(clean@ =~= "C"@);
                    assert(edges_v(edges@) =~= edges_v(old(edges)@) + go_import_spec(*s, file@, opt_view(*go_mod)));
                } else {
                    assert(clean@ != "C"@) by {
                        if clean@ == "C"@ {
                            assert(cv@.len() == 1 && cv@[0] == 'C');
                        }
                    }
                    let gm = match go_mod {
                        Some(g) => Some(g.as_str()),
                        None => None,
                    };
                    let target = resolve_import_path(clean.as_str(), gm);
                    push_edge(edges, copy_string(file), target, EdgeKind::Imports);
                    assert(edges_v(edges@) =~= edges_v(old(edges)@) + go_import_spec(*s, file@, opt_view(*go_mod)));
                }
            },
            None => {
                assert(edges_v(edges@) =~= edges_v(old(edges)@) + go_import_spec(*s, file@, opt_view(*go_mod)));
            },
        },
        None => {
            assert(edges_v(edges@) =~= edges_v(old(edges)@) + go_import_spec(*s, file@, opt_view(*go_mod)));
        },
    }
}

fn go_import_list_exec(cs: &Vec<SyntaxNode>, file: &String, go_mod: &Option<String>, edges: &mut Vec<Edge>)
    ensures
        edges_v(final(edges)@) == edges_v(old(edges)@) + go_import_list(cs@, file@, opt_view(*go_mod)),
{
    let ghost e0 = edges_v(edges@);
    let mut i: usize = 0;
    while i < cs.len()
        invariant
            i <= cs@.len(),
            edges_v(edges@) == e0 + go_import_list(cs@.take(i as int), file@, opt_view(*go_mod)),
        decreases cs@.len() - i,
    {
        assert(cs@.take(i + 1).drop_last() =~= cs@.take(i as int));
        if kind_is(&cs[i], "import_spec") {
            go_import_spec_exec(&cs[i], file, go_mod, edges);
        }
        i = i + 1;
        assert(edges_v(edges@) =~= e0 + go_import_list(cs@.take(i as int), file@, opt_view(*go_mod)));
    }
    assert(cs@.take(cs@.len() as int) =~= cs@);
}

fn go_import_decl_exec(cs: &Vec<SyntaxNode>, file: &String, go_mod: &Option<String>, edges: &mut Vec<Edge>)
    ensures
        edges_v(final(edges)@) == edges_v(old(edges)@) + go_import_decl(cs@, file@, opt_view(*go_mod)),
{
    let ghost e0 = edges_v(edges@);
    let mut i: usize = 0;
    while i < cs.len()
        invariant
            i <= cs@.len(),
            edges_v(edges@) == e0 + go_import_decl(cs@.take(i as int), file@, opt_view(*go_mod)),
        decreases cs@.len() - i,
    {
        assert(cs@.take(i + 1).drop_last() =~= cs@.take(i as int));
        if kind_is(&cs[i], "import_spec") {
            go_import_spec_exec(&cs[i], file, go_mod, edges);
        } else if kind_is(&cs[i], "import_spec_list") {
            go_import_list_exec(&cs[i].children, file, go_mod, edges);
        }
        i = i + 1;
        assert(edges_v(edges@) =~= e0 + go_import_decl(cs@.take(i as int), file@, opt_view(*go_mod)));
    }
    assert(cs@.take(cs@.len() as int) =~= cs@);
}

fn go_embedded_exec(f: &SyntaxNode) -> (r: Option<String>)
    ensures
        match r { Some(t) => go_embedded(*f) == Some(t@), None => go_embedded(*f) is None },
{
    if !kind_is(f, "field_declaration") {
        return None;
    }
    if child_by_field(f, "name").is_some() {
        return None;
    }
    match child_by_field(f, "type") {
        Some(t) => match &t.text {
            Some(x) => Some(copy_string(x)),
            None => None,
        },
        None => None,
    }
}

fn go_struct_edges_exec(cs: &Vec<SyntaxNode>, id: &String, path: &String, edges: &mut Vec<Edge>)
    ensures
        edges_v(final(edges)@) == edges_v(old(edges)@) + go_struct_edges(cs@, id@, path@),
{
    let ghost e0 = edges_v(edges@);
    let mut i: usize = 0;
    while i < cs.len()
        invariant
            i <= cs@.len(),
            edges_v(edges@) == e0 + go_struct_edges(cs@.take(i as int), id@, path@),
        decreases cs@.len() - i,
    {
        assert(cs@.take(i + 1).drop_last() =~= cs@.take(i as int));
        if kind_is(&cs[i], "field_declaration_list") {
            let fs = &cs[i].children;
            let ghost e1 = edges_v(edges@);
            let mut j: usize = 0;
            while j < fs.len()
                invariant
                    j <= fs@.len(),
                    edges_v(edges@) == e1 + go_embedded_edges(fs@.take(j as int), id@, path@),
                decreases fs@.len() - j,
            {
                assert(fs@.take(j + 1).drop_last() =~= fs@.take(j as int));
                match go_embedded_exec(&fs[j]) {
                    Some(t) => {
                        let to = make_symbol_id(path, &t);
                        push_edge(edges, copy_string(id), to, EdgeKind::Inherits);
                    },
                    None => {},
                }
                j = j + 1;
                assert(edges_v(edges@) =~= e1 + go_embedded_edges(fs@.take(j as int), id@, path@));
            }
            assert(fs@.take(fs@.len() as int) =~= fs@);
        }
        i = i + 1;
        assert(edges_v(edges@) =~= e0 + go_struct_edges(cs@.take(i as int), id@, path@));
    }
    assert(cs@.take(cs@.len() as int) =~= cs@);
}

fn go_type_spec_exec(s: &SyntaxNode, path: &String, nodes: &mut Vec<Node>, edges: &mut Vec<Edge>)
    ensures
        nodes_v(final(nodes)@) == nodes_v(old(nodes)@) + go_type_spec(*s, path@).0,
        edges_v(final(edges)@) == edges_v(old(edges)@) + go_type_spec(*s, path@).1,
{
    let ghost n0 = nodes_v(nodes@);
    let ghost e0 = edges_v(edges@);
    let name = match child_by_field(s, "name") {
        Some(n) => n,
        None => {
            assert(nodes_v(nodes@) =~= n0 + go_type_spec(*s, path@).0);
            assert(edges_v(edges@) =~= e0 + go_type_spec(*s, path@).1);
            return;
        },
    };
    let n = match &name.text {
        Some(x) => x,
        None => {
            assert(nodes_v(nodes@) =~= n0 + go_type_spec(*s, path@).0);
            assert(edges_v(edges@) =~= e0 + go_type_spec(*s, path@).1);
            return;
        },
    };
    let t = match child_by_field(s, "type") {
        Some(t) => t,
        None => {
            assert(nodes_v(nodes@) =~= n0 + go_type_spec(*s, path@).0);
            assert(edges_v(edges@) =~= e0 + go_type_spec(*s, path@).1);
            return;
        },
    };
    let is_struct = kind_is(t, "struct_type");
    let kind = if is_struct {
        NodeKind::Class
    } else if kind_is(t, "interface_type") {
        NodeKind::Interface
    } else {
        assert(nodes_v(nodes@) =~= n0 + go_type_spec(*s, path@).0);
        assert(edges_v(edges@) =~= e0 + go_type_spec(*s, path@).1);
        return;
    };
    let id = make_symbol_id(path, n);
    let node = Node {
        id: copy_string(&id),
        label: copy_string(n),
        kind,
        file_path: copy_string(path),
        line: line_from_row(name.row),
        is_public: starts_upper_exec(n),
        parent_id: None,
    };
    push_node(nodes, node);
    if is_struct {
        go_struct_edges_exec(&t.children, &id, path, edges);
    }
    assert(nodes_v(nodes@) =~= n0 + go_type_spec(*s, path@).0);
    assert(edges_v(edges@) =~= e0 + go_type_spec(*s, path@).1);
}

fn go_type_decl_exec(cs: &Vec<SyntaxNode>, path: &String, nodes: &mut Vec<Node>, edges: &mut Vec<Edge>)
    ensures
        nodes_v(final(nodes)@) == nodes_v(old(nodes)@) + go_type_decl(cs@, path@).0,
        edges_v(final(edges)@) == edges_v(old(edges)@) + go_type_decl(cs@, path@).1,
{
    let ghost n0 = nodes_v(nodes@);
    let ghost e0 = edges_v(edges@);
    let mut i: usize = 0;
    while i < cs.len()
        invariant
            i <= cs@.len(),
            nodes_v(nodes@) == n0 + go_type_decl(cs@.take(i as int), path@).0,
            edges_v(edges@) == e0 + go_type_decl(cs@.take(i as int), path@).1,
        decreases cs@.len() - i,
    {
        assert(cs@.take(i + 1).drop_last() =~= cs@.take(i as int));
        if kind_is(&cs[i], "type_spec") {
            go_type_spec_exec(&cs[i], path, nodes, edges);
        }
        i = i + 1;
        assert(nodes_v(nodes@) =~= n0 + go_type_decl(cs@.take(i as int), path@).0);
        assert(edges_v(edges@) =~= e0 + go_type_decl(cs@.take(i as int), path@).1);
    }
    assert(cs@.take(cs@.len() as int) =~= cs@);
}

fn go_function_exec(f: &SyntaxNode, path: &String, nodes: &mut Vec<Node>)
    ensures
        nodes_v(final(nodes)@) == nodes_v(old(nodes)@) + go_function(*f, path@),
{
    let ghost n0 = nodes_v(nodes@);
    proof {
        reveal_strlit("main");
    }
    match child_by_field(f, "name") {
        Some(name) => match &name.text {
            Some(n) => {
                let main = text_is(name, "main");
                let node = Node {
                    id: make_symbol_id(path, n),
                    label: copy_string(n),
                    kind: NodeKind::Function { is_async: false },
                    file_path: copy_string(path),
                    line: line_from_row(name.row),
                    is_public: main || starts_upper_exec(n),
                    parent_id: None,
                };
                push_node(nodes, node);
            },
            None => {},
        },
        None => {},
    }
    assert(nodes_v(nodes@) =~= n0 + go_function(*f, path@));
}

fn go_pointee_exec(cs: &Vec<SyntaxNode>) -> (r: Option<String>)
    ensures
        match r { Some(t) => go_pointee(cs@) == Some(t@), None => go_pointee(cs@) is None },
{
    let mut i: usize = cs.len();
    assert(cs@.take(i as int) =~= cs@);
    while i > 0
        invariant
            i <= cs@.len(),
            go_pointee(cs@) == go_pointee(cs@.take(i as int)),
        decreases i,
    {
        assert(cs@.take(i as int).drop_last() =~= cs@.take(i - 1));
        let c = &cs[i - 1];
        if kind_is(c, "type_identifier") {
            match &c.text {
                Some(t) => {
                    return Some(copy_string(t));
                },
                None => {},
            }
        }
        i = i - 1;
    }
    None
}

fn go_param_type_exec(p: &SyntaxNode) -> (r: Option<String>)
    ensures
        match r { Some(t) => go_param_type(*p) == Some(t@), None => go_param_type(*p) is None },
{
    if !kind_is(p, "parameter_declaration") {
        return None;
    }
    match child_by_field(p, "type") {
        Some(t) => {
            if kind_is(t, "pointer_type") {
                go_pointee_exec(&t.children)
            } else if kind_is(t, "type_identifier") {
                match &t.text {
                    Some(x) => Some(copy_string(x)),
                    None => None,
                }
            } else {
                None
            }
        },
        None => None,
    }
}

fn go_receiver_exec(cs: &Vec<SyntaxNode>) -> (r: String)
    ensures
        r@ == go_receiver(cs@),
{
    let mut i: usize = cs.len();
    assert(cs@.take(i as int) =~= cs@);
    while i > 0
        invariant
            i <= cs@.len(),
            go_receiver(cs@) == go_receiver(cs@.take(i as int)),
        decreases i,
    {
        assert(cs@.take(i as int).drop_last() =~= cs@.take(i - 1));
        assert(cs@.take(i as int).last() == cs@[i - 1]);
        match go_param_type_exec(&cs[i - 1]) {
            Some(t) => {
                return t;
            },
            None => {},
        }
        i = i - 1;
    }
    String::new()
}

fn go_method_exec(m: &SyntaxNode, path: &String, nodes: &mut Vec<Node>)
    ensures
        nodes_v(final(nodes)@) == nodes_v(old(nodes)@) + go_method(*m, path@),
{
    let ghost n0 = nodes_v(nodes@);
    match child_by_field(m, "name") {
        Some(name) => match &name.text {
            Some(n) => {
                let recv = match child_by_field(m, "receiver") {
                    Some(r) => go_receiver_exec(&r.children),
                    None => String::new(),
                };
                let rv = chars_of(recv.as_str());
                let id = if rv.len() == 0 {
                    make_symbol_id(path, n)
                } else {
                    let q = make_symbol_id(path, &recv);
                    make_symbol_id(&q, n)
                };
                let node = Node {
                    id,
                    label: copy_string(n),
                    kind: NodeKind::Function { is_async: false },
                    file_path: copy_string(path),
                    line: line_from_row(name.row),
                    is_public: starts_upper_exec(n),
                    parent_id: None,
                };
                push_node(nodes, node);
            },
            None => {},
        },
        None => {},
    }
    assert(nodes_v(nodes@) =~= n0 + go_method(*m, path@));
}

/// Extracts the graph of a Go file from its syntax tree. `file_path` is the path as given
/// (import edges start there); the nodes' ids and paths use it with forward slashes. Imports
/// are resolved against the text of `go.mod`, where one is given.
pub fn extract_go(root: &SyntaxNode, file_path: &str, go_mod: &Option<String>) -> (g: CodeGraph)
    ensures
        is_go_graph(g, *root, file_path@, opt_view(*go_mod)),
{
    let path = normalize_path(file_path);
    let file = to_owned_string(file_path);
    let mut nodes: Vec<Node> = Vec::new();
    let mut edges: Vec<Edge> = Vec::new();
    let label = last_segment_exec(&path);
    push_node(&mut nodes, Node {
        id: copy_string(&path),
        label,
        kind: NodeKind::File,
        file_path: copy_string(&path),
        line: None,
        is_public: true,
        parent_id: None,
    });
    let ghost n0 = nodes_v(nodes@);
    assert(n0 =~= seq![go_file_node(path@)]);
    let cs = &root.children;
    let mut i: usize = 0;
    while i < cs.len()
        invariant
            i <= cs@.len(),
            nodes_v(nodes@) == n0 + go_decls(cs@.take(i as int), file@, path@, opt_view(*go_mod)).0,
            edges_v(edges@) == go_decls(cs@.take(i as int), file@, path@, opt_view(*go_mod)).1,
        decreases cs@.len() - i,
    {
        assert(cs@.take(i + 1).drop_last() =~= cs@.take(i as int));
        let c = &cs[i];
        let ghost nb = nodes_v(nodes@);
        let ghost eb = edges_v(edges@);
        if kind_is(c, "import_declaration") {
            go_import_decl_exec(&c.children, &file, go_mod, &mut edges);
        } else if kind_is(c, "type_declaration") {
            go_type_decl_exec(&c.children, &path, &mut nodes, &mut edges);
        } else if kind_is(c, "function_declaration") {
            go_function_exec(c, &path, &mut nodes);
        } else if kind_is(c, "method_declaration") {
            go_method_exec(c, &path, &mut nodes);
        }
        assert(nodes_v(nodes@) =~= nb + go_decl(*c, file@, path@, opt_view(*go_mod)).0);
        assert(edges_v(edges@) =~= eb + go_decl(*c, file@, path@, opt_view(*go_mod)).1);
        i = i + 1;
        assert(nodes_v(nodes@) =~= n0 + go_decls(cs@.take(i as int), file@, path@, opt_view(*go_mod)).0);
        assert(edges_v(edges@) =~= go_decls(cs@.take(i as int), file@, path@, opt_view(*go_mod)).1);
    }
    assert(cs@.take(cs@.len() as int) =~= cs@);
    let mut meta = new_meta("go");
    meta.node_count = nodes.len();
    meta.edge_count = edges.len();
    CodeGraph { nodes, edges, control_flow: Vec::new(), meta }
}

/// Whether the graph is the one extracted from the Go syntax tree of the file.
pub open spec fn is_go_graph(g: CodeGraph, root: SyntaxNode, file_path: Seq<char>, gm: Option<Seq<char>>) -> bool {
    let path = file_path.map_values(|c: char| forward_slash(c));
    let items = go_decls(root.children@, file_path, path, gm);
    &&& g.nv() == seq![go_file_node(path)] + items.0
    &&& g.ev() == items.1
    &&& g.control_flow@.len() == 0
    &&& fresh_meta(g.meta, "go"@, g.nodes@.len(), g.edges@.len())
}

/// A parser for the Go programming language. Imports are resolved against the text of the
/// working directory's `go.mod`, where the parser was given one.
pub struct GoParser {
    go_mod: Option<String>,
}

impl GoParser {
    /// The text of `go.mod` that imports are resolved against, if any.
    pub closed spec fn go_mod_text(&self) -> Option<Seq<char>> {
        opt_view(self.go_mod)
    }

    /// Creates a new parser, with no `go.mod` to resolve imports against.
    pub fn new() -> (r: Self)
        ensures
            r.go_mod_text() is None,
    {
        GoParser { go_mod: None }
    }

    /// Creates a parser that resolves imports against the text of a `go.mod`.
    pub fn with_go_mod(go_mod: String) -> (r: Self)
        ensures
            r.go_mod_text() == Some(go_mod@),
    {
        GoParser { go_mod: Some(go_mod) }
    }
}

impl Default for GoParser {
    fn default() -> (r: Self)
        ensures
            r.go_mod_text() is None,
    {
        GoParser::new()
    }
}

/// The error of a parse whose grammar tree-sitter refused.
pub fn parse_failure(language: &str, file_path: &str) -> (e: ParseError)
    ensures
        e.file_path@ == file_path@,
        e.line is None,
        e.message@ == "Failed to set "@ + language@ + " language for tree-sitter"@,
{
    let mut message = to_owned_string("Failed to set ");
    crate::text::push_str(&mut message, language);
    crate::text::push_str(&mut message, " language for tree-sitter");
    ParseError { message, file_path: to_owned_string(file_path), line: None }
}

impl LanguageParser for GoParser {
    open spec fn claimed_extensions(&self) -> Seq<Seq<char>> {
        seq!["go"@]
    }

    open spec fn parses_to(&self, source: Seq<char>, file_path: Seq<char>, r: Result<CodeGraph, ParseError>) -> bool {
        &&& r is Ok
        &&& r matches Ok(g) ==> exists|t: SyntaxNode| tree_of_source(t, GO_GRAMMAR, source)
            && #[trigger] is_go_graph(g, t, file_path, self.go_mod_text())
    }

    fn language_name(&self) -> (r: &str)
        ensures
            r@ == "go"@,
    {
        "go"
    }

    fn supported_extensions(&self) -> (r: &[&str])
        ensures
            r@.map_values(|e: &str| e@) == seq!["go"@],
    {
        let r: &[&str] = &["go"];
        assert(r@.map_values(|e: &str| e@) =~= seq!["go"@]);
        r
    }

    fn parse(&self, source: &str, file_path: &str) -> (r: Result<CodeGraph, ParseError>)
        ensures
            r is Ok,
            r matches Ok(g) ==> exists|t: SyntaxNode| tree_of_source(t, GO_GRAMMAR, source@)
                && #[trigger] is_go_graph(g, t, file_path@, self.go_mod_text()),
    {
        let grammar = go_grammar();
        match parse_syntax(&grammar, source) {
            Ok(root) => {
                let g = extract_go(&root, file_path, &self.go_mod);
                let r: Result<CodeGraph, ParseError> = Ok(g);
                assert(is_go_graph(r->Ok_0, root, file_path@, self.go_mod_text()));
                r
            },
            Err(_) => Err(parse_failure("Go", file_path)),
        }
    }
}

} // verus!
