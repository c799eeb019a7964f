//! The Python extractor: modules, imports, classes, functions, decorators and calls.

use vstd::prelude::*;
use crate::extract::{edge_v, line_from_row, line_of, make_symbol_id, symbol_id, symbol_node};
use crate::go::parse_failure;
use crate::ir::{CodeGraph, Edge, EdgeKind, EdgeV, Node, NodeKind, NodeV, edges_v, nodes_v};
use crate::order::{join, join_texts};
use crate::parser::{LanguageParser, ParseError};
use crate::path_utils::{forward_slash, normalize_path};
use crate::syntax::{PYTHON_GRAMMAR, SyntaxNode, child_by_field, field_child, kind_is, parse_syntax, python_grammar, text_of, tree_of_source};
use crate::text::{chars_of, copy_string, push_str, same_text, string_from_chars, to_owned_string};

verus! {

/// What the walk has gathered so far: nodes, edges, and the names that `from` imports
/// bound, each with the id it stands for (a later binding shadows an earlier one).
#[verifier::ext_equal]
pub struct PyState {
    pub nodes: Seq<NodeV>,
    pub edges: Seq<EdgeV>,
    pub scope: Seq<(Seq<char>, Seq<char>)>,
}

/// The id a name is bound to by the latest binding, if any.
pub open spec fn lookup(scope: Seq<(Seq<char>, Seq<char>)>, name: Seq<char>) -> Option<Seq<char>>
    decreases scope.len(),
{
    if scope.len() == 0 {
        None
    } else if scope.last().0 == name {
        Some(scope.last().1)
    } else {
        lookup(scope.drop_last(), name)
    }
}

/// The position of the last "::" in the text, or -1.
pub open spec fn last_sep(s: Seq<char>) -> int
    decreases s.len(),
{
    if s.len() < 2 {
        -1
    } else if s[s.len() - 2] == ':' && s[s.len() - 1] == ':' {
        s.len() - 2
    } else {
        last_sep(s.drop_last())
    }
}

/// The target of a call made from `caller`: `self.m` is the method `m` beside the caller,
/// a name bound by an import is what it was bound to, anything else is as written.
pub open spec fn call_target(f: Seq<char>, caller: Seq<char>, scope: Seq<(Seq<char>, Seq<char>)>) -> Seq<char> {
    if f.len() >= 5 && f.take(5) == "self."@ {
        let k = last_sep(caller);
        if k >= 0 { caller.take(k) + "::"@ + f.skip(5) } else { f }
    } else {
        match lookup(scope, f) {
            Some(t) => t,
            None => f,
        }
    }
}

/// The edges of an `import` statement's children.
pub open spec fn py_import(cs: Seq<SyntaxNode>, file: Seq<char>) -> Seq<EdgeV>
    decreases cs.len(),
{
    if cs.len() == 0 {
        seq![]
    } else {
        let c = cs.last();
        py_import(cs.drop_last(), file) + if c.kind@ == "dotted_name"@ {
            match c.text { Some(t) => seq![edge_v(file, t@, EdgeKind::Imports)], None => seq![] }
        } else if c.kind@ == "aliased_import"@ {
            match field_child(c, "name"@) {
                Some(n) => match n.text { Some(t) => seq![edge_v(file, t@, EdgeKind::Imports)], None => seq![] },
                None => seq![],
            }
        } else {
            seq![]
        }
    }
}

/// The module a `from` import names, or nothing.
pub open spec fn from_module(n: SyntaxNode) -> Seq<char> {
    match field_child(n, "module_name"@) {
        Some(m) => text_of(m),
        None => Seq::empty(),
    }
}

/// The name that a child of a `from` import binds, where it binds one.
pub open spec fn from_name(c: SyntaxNode, module: Seq<char>) -> Option<Seq<char>> {
    if c.kind@ == "dotted_name"@ || c.kind@ == "aliased_import"@ || c.kind@ == "identifier"@ {
        let name = match field_child(c, "name"@) { Some(x) => x, None => c };
        match name.text {
            Some(t) => if t@ != module && t@ != "."@ { Some(t@) } else { None },
            None => None,
        }
    } else {
        None
    }
}

/// What the import edge and the binding of a name from a module lead to.
pub open spec fn from_target(module: Seq<char>, name: Seq<char>) -> Seq<char> {
    if module.len() == 0 { name } else { module + "."@ + name }
}

/// The edges and bindings of a `from` import's children.
pub open spec fn py_import_from(cs: Seq<SyntaxNode>, module: Seq<char>, file: Seq<char>)
    -> (Seq<EdgeV>, Seq<(Seq<char>, Seq<char>)>)
    decreases cs.len(),
{
    if cs.len() == 0 {
        (seq![], seq![])
    } else {
        let prev = py_import_from(cs.drop_last(), module, file);
        match from_name(cs.last(), module) {
            Some(name) => {
                let to = from_target(module, name);
                (prev.0.push(edge_v(file, to, EdgeKind::Imports)), prev.1.push((name, to)))
            },
            None => prev,
        }
    }
}

/// The position of the first '(' of the text, or its length.
pub open spec fn paren_pos(t: Seq<char>) -> nat
    decreases t.len(),
{
    if t.len() == 0 {
        0
    } else if t[0] == '(' {
        0
    } else {
        1 + paren_pos(t.skip(1))
    }
}

/// The text before the first '(' of a decorator.
pub open spec fn before_paren(t: Seq<char>) -> Seq<char> {
    t.take(paren_pos(t) as int)
}

/// The decorator names among a decorator's children.
pub open spec fn decorator_names(cs: Seq<SyntaxNode>) -> Seq<Seq<char>>
    decreases cs.len(),
{
    if cs.len() == 0 {
        seq![]
    } else {
        let c = cs.last();
        decorator_names(cs.drop_last()) + if (c.kind@ == "identifier"@ || c.kind@ == "call"@ || c.kind@ == "dotted_name"@)
            && c.text is Some { seq![before_paren(text_of(c))] } else { seq![] }
    }
}

/// The decorators of a decorated definition's children.
pub open spec fn decorators_of(cs: Seq<SyntaxNode>) -> Seq<Seq<char>>
    decreases cs.len(),
{
    if cs.len() == 0 {
        seq![]
    } else {
        decorators_of(cs.drop_last()) + if cs.last().kind@ == "decorator"@ { decorator_names(cs.last().children@) } else { seq![] }
    }
}

/// The position of the definition that a decorated definition decorates: its last class
/// or function child.
pub open spec fn decorated_target(cs: Seq<SyntaxNode>) -> Option<int>
    decreases cs.len(),
{
    if cs.len() == 0 {
        None
    } else if cs.last().kind@ == "class_definition"@ || cs.last().kind@ == "function_definition"@ {
        Some(cs.len() - 1)
    } else {
        decorated_target(cs.drop_last())
    }
}

pub proof fn lemma_decorated_target(cs: Seq<SyntaxNode>)
    ensures
        decorated_target(cs) matches Some(i) ==> 0 <= i < cs.len(),
    decreases cs.len(),
{
    if cs.len() > 0 {
        lemma_decorated_target(cs.drop_last());
    }
}

/// The label of a definition: its name, then '@' and its decorators where it has some.
pub open spec fn def_label(name: Seq<char>, decorators: Seq<Seq<char>>) -> Seq<char> {
    if decorators.len() == 0 { name } else { name + "@"@ + join(decorators, ","@) }
}

/// Whether a function definition begins with `async`.
pub open spec fn is_async_def(n: SyntaxNode) -> bool {
    n.children@.len() > 0 && n.children@[0].kind@ == "async"@
}

/// The `Inherits` edges of a class's superclass list.
pub open spec fn py_bases(cs: Seq<SyntaxNode>, id: Seq<char>, path: Seq<char>) -> Seq<EdgeV>
    decreases cs.len(),
{
    if cs.len() == 0 {
        seq![]
    } else {
        let c = cs.last();
        py_bases(cs.drop_last(), id, path) + if (c.kind@ == "identifier"@ || c.kind@ == "attribute"@) && c.text is Some {
            seq![edge_v(id, symbol_id(path, text_of(c)), EdgeKind::Inherits)]
        } else {
            seq![]
        }
    }
}

/// What a class or function definition adds, and its id where it has a readable name.
pub open spec fn py_def(n: SyntaxNode, is_class: bool, is_async: bool, parent: Option<Seq<char>>,
    decorators: Seq<Seq<char>>, path: Seq<char>) -> (Seq<NodeV>, Seq<EdgeV>, Option<Seq<char>>)
{
    match field_child(n, "name"@) {
        Some(name) => match name.text {
            Some(t) => {
                let base = match parent { Some(p) => p, None => path };
                let id = symbol_id(base, t@);
                let kind = if is_class { NodeKind::Class } else { NodeKind::Function { is_async } };
                let node = symbol_node(id, def_label(t@, decorators), kind, path, line_of(name.row), true, Some(base));
                let bases = if is_class {
                    match field_child(n, "superclasses"@) { Some(s) => py_bases(s.children@, id, path), None => seq![] }
                } else {
                    seq![]
                };
                (seq![node], seq![edge_v(base, id, EdgeKind::Contains)] + bases, Some(id))
            },
            None => (seq![], seq![], None),
        },
        None => (seq![], seq![], None),
    }
}

/// The state with nodes and edges added.
pub open spec fn grow(st: PyState, nodes: Seq<NodeV>, edges: Seq<EdgeV>) -> PyState {
    PyState { nodes: st.nodes + nodes, edges: st.edges + edges, scope: st.scope }
}

/// Visits a node of the syntax tree, then its children, in order, under the innermost
/// definition that holds them.
pub open spec fn py_visit(n: SyntaxNode, parent: Option<Seq<char>>, file: Seq<char>, path: Seq<char>, st: PyState) -> PyState
    decreases n,
{
    let k = n.kind@;
    if k == "decorated_definition"@ {
        match decorated_target(n.children@) {
            Some(i) => {
                proof {
                    lemma_decorated_target(n.children@);
                }
                let t = n.children@[i];
                let d = py_def(t, t.kind@ == "class_definition"@, is_async_def(t), parent, decorators_of(n.children@), path);
                match d.2 {
                    Some(id) => py_visit_list(t.children@, Some(id), file, path, grow(st, d.0, d.1)),
                    None => grow(st, d.0, d.1),
                }
            },
            None => st,
        }
    } else {
        let (st1, next) = if k == "class_definition"@ || k == "function_definition"@ {
            let d = py_def(n, k == "class_definition"@, is_async_def(n), parent, seq![], path);
            (grow(st, d.0, d.1), match d.2 { Some(id) => Some(id), None => parent })
        } else if k == "import_statement"@ {
            (grow(st, seq![], py_import(n.children@, file)), parent)
        } else if k == "import_from_statement"@ {
            let f = py_import_from(n.children@, from_module(n), file);
            (PyState { nodes: st.nodes, edges: st.edges + f.0, scope: st.scope + f.1 }, parent)
        } else if k == "call"@ && parent is Some {
            match field_child(n, "function"@) {
                Some(f) => match f.text {
                    Some(t) => (grow(st, seq![], seq![edge_v(parent->0, call_target(t@, parent->0, st.scope), EdgeKind::Calls)]), parent),
                    None => (st, parent),
                },
                None => (st, parent),
            }
        } else {
            (st, parent)
        };
        py_visit_list(n.children@, next, file, path, st1)
    }
}

/// Visits the nodes in order.
pub open spec fn py_visit_list(cs: Seq<SyntaxNode>, parent: Option<Seq<char>>, file: Seq<char>, path: Seq<char>, st: PyState) -> PyState
    decreases cs,
{
    if cs.len() == 0 {
        st
    } else {
        py_visit(cs.last(), parent, file, path, py_visit_list(cs.drop_last(), parent, file, path, st))
    }
}

/// The plain values of the bindings.
pub open spec fn scope_v(scope: Seq<(String, String)>) -> Seq<(Seq<char>, Seq<char>)> {
    scope.map_values(|b: (String, String)| (b.0@, b.1@))
}

/// The state that the vectors hold.
pub open spec fn state_of(nodes: Seq<Node>, edges: Seq<Edge>, scope: Seq<(String, String)>) -> PyState {
    PyState { nodes: nodes_v(nodes), edges: edges_v(edges), scope: scope_v(scope) }
}

proof fn lemma_paren_pos(t: Seq<char>)
    ensures
        paren_pos(t) <= t.len(),
    decreases t.len(),
{
    if t.len() > 0 && t[0] != '(' {
        lemma_paren_pos(t.skip(1));
    }
}

fn before_paren_exec(t: &String) -> (r: String)
    ensures
        r@ == before_paren(t@),
{
    let v = chars_of(t.as_str());
    let mut i: usize = 0;
    assert(v@.skip(0) =~= v@);
    while i < v.len() && v[i] != '('
        invariant
            i <= v@.len(),
            paren_pos(v@) == i + paren_pos(v@.skip(i as int)),
        decreases v@.len() - i,
    {
        assert(v@.skip(i as int).skip(1) =~= v@.skip(i + 1));
        i = i + 1;
    }
    let mut r: Vec<char> = Vec::new();
    let mut j: usize = 0;
    while j < i
        invariant
            j <= i <= v@.len(),
            r@ == v@.take(j as int),
        decreases i - j,
    {
        r.push(v[j]);
        assert(v@.take(j + 1) =~= v@.take(j as int).push(v@[j as int]));
        j = j + 1;
    }
    string_from_chars(r.as_slice())
}

fn lookup_exec(scope: &Vec<(String, String)>, name: &String) -> (r: Option<String>)
    ensures
        match r { Some(t) => lookup(scope_v(scope@), name@) == Some(t@), None => lookup(scope_v(scope@), name@) is None },
{
    let ghost sv = scope_v(scope@);
    let mut i: usize = scope.len();
    assert(sv.take(i as int) =~= sv);
    while i > 0
        invariant
            sv == scope_v(scope@),
            i <= sv.len(),
            lookup(sv, name@) == lookup(sv.take(i as int), name@),
        decreases i,
    {
        assert(sv.take(i as int).drop_last() =~= sv.take(i - 1));
        assert(sv[i - 1] == (scope@[i - 1].0@, scope@[i - 1].1@));
        if same_text(&scope[i - 1].0, name) {
            return Some(copy_string(&scope[i - 1].1));
        }
        i = i - 1;
    }
    None
}

fn call_target_exec(f: &String, caller: &String, scope: &Vec<(String, String)>) -> (r: String)
    ensures
        r@ == call_target(f@, caller@, scope_v(scope@)),
{
    let fv = chars_of(f.as_str());
    let pre = chars_of("self.");
    proof {
        reveal_strlit("self.");
    }
    let is_self = fv.len() >= 5 && fv[0] == pre[0] && fv[1] == pre[1] && fv[2] == pre[2] && fv[3] == pre[3] && fv[4] == pre[4];
    if is_self {
        assert(fv@.take(5) =~= "self."@);
    } else if fv.len() >= 5 {
        assert(fv@.take(5) != "self."@) by {
            if fv@.take(5) == "self."@ {
                assert(fv@.take(5)[0] == pre@[0]);
                assert(fv@.take(5)[1] == pre@[1]);
                assert(fv@.take(5)[2] == pre@[2]);
                assert(fv@.take(5)[3] == pre@[3]);
                assert(fv@.take(5)[4] == pre@[4]);
            }
        }
    }
    if is_self {
        let cv = chars_of(caller.as_str());
        let mut i: usize = cv.len();
        assert(cv@.take(i as int) =~= cv@);
        while i >= 2 && !(cv[i - 2] == ':' && cv[i - 1] == ':')
            invariant
                i <= cv@.len(),
                last_sep(cv@) == last_sep(cv@.take(i as int)),
            decreases i,
        {
            assert(cv@.take(i as int).drop_last() =~= cv@.take(i - 1));
            i = i - 1;
        }
        if i >= 2 {
            let mut r: Vec<char> = Vec::new();
            let mut j: usize = 0;
            while j < i - 2
                invariant
                    2 <= i <= cv@.len(),
                    j <= i - 2,
                    r@ == cv@.take(j as int),
                decreases i - 2 - j,
            {
                r.push(cv[j]);
                assert(cv@.take(j + 1) =~= cv@.take(j as int).push(cv@[j as int]));
                j = j + 1;
            }
            r.push(':');
            r.push(':');
            proof {
                reveal_strlit("::");
            }
            assert(r@ =~= cv@.take(i - 2) + "::"@ + fv@.subrange(5, 5));
            let mut k: usize = 5;
            while k < fv.len()
                invariant
                    5 <= k <= fv@.len(),
                    r@ == cv@.take(i - 2) + "::"@ + fv@.subrange(5, k as int),
                decreases fv@.len() - k,
            {
                r.push(fv[k]);
                assert(fv@.subrange(5, k + 1) =~= fv@.subrange(5, k as int).push(fv@[k as int]));
                k = k + 1;
            }
            proof {
                reveal_strlit("::");
                assert(fv@.subrange(5, fv@.len() as int) =~= fv@.skip(5));
            }
            string_from_chars(r.as_slice())
        } else {
            copy_string(f)
        }
    } else {
        match lookup_exec(scope, f) {
            Some(t) => t,
            None => copy_string(f),
        }
    }
}

fn push_edge_to(edges: &mut Vec<Edge>, from: String, to: String, kind: EdgeKind)
    ensures
        edges_v(final(edges)@) == edges_v(old(edges)@).push(edge_v(from@, to@, kind)),
{
    edges.push(Edge { from_id: from, to_id: to, kind });
    assert(edges_v(edges@) =~= edges_v(old(edges)@).push(edge_v(from@, to@, kind)));
}

fn py_import_exec(cs: &Vec<SyntaxNode>, file: &String, edges: &mut Vec<Edge>)
    ensures
        edges_v(final(edges)@) == edges_v(old(edges)@) + py_import(cs@, file@),
{
    let ghost e0 = edges_v(edges@);
    let mut i: usize = 0;
    while i < cs.len()
        invariant
            i <= cs@.len(),
            edges_v(edges@) == e0 + py_import(cs@.take(i as int), file@),
        decreases cs@.len() - i,
    {
        assert(cs@.take(i + 1).drop_last() =~= cs@.take(i as int));
        let c = &cs[i];
        if kind_is(c, "dotted_name") {
            match &c.text {
                Some(t) => push_edge_to(edges, copy_string(file), copy_string(t), EdgeKind::Imports),
                None => {},
            }
        } else if kind_is(c, "aliased_import") {
            match child_by_field(c, "name") {
                Some(n) => match &n.text {
                    Some(t) => push_edge_to(edges, copy_string(file), copy_string(t), EdgeKind::Imports),
                    None => {},
                },
                None => {},
            }
        }
        i = i + 1;
        assert(edges_v(edges@) =~= e0 + py_import(cs@.take(i as int), file@));
    }
    assert(cs@.take(cs@.len() as int) =~= cs@);
}

fn from_name_exec(c: &SyntaxNode, module: &String) -> (r: Option<String>)
    ensures
        match r { Some(t) => from_name(*c, module@) == Some(t@), None => from_name(*c, module@) is None },
{
    if !(kind_is(c, "dotted_name") || kind_is(c, "aliased_import") || kind_is(c, "identifier")) {
        return None;
    }
    let name = match child_by_field(c, "name") {
        Some(x) => x,
        None => c,
    };
    proof {
        reveal_strlit(".");
    }
    match &name.text {
        Some(t) => {
            let dot = to_owned_string(".");
            if !same_text(t, module) && !same_text(t, &dot) {
                Some(copy_string(t))
            } else {
                None
            }
        },
        None => None,
    }
}

fn py_import_from_exec(n: &SyntaxNode, file: &String, edges: &mut Vec<Edge>, scope: &mut Vec<(String, String)>)
    ensures
        ({
            let f = py_import_from(n.children@, from_module(*n), file@);
            &&& edges_v(final(edges)@) == edges_v(old(edges)@) + f.0
            &&& scope_v(final(scope)@) == scope_v(old(scope)@) + f.1
        }),
{
    let module = match child_by_field(n, "module_name") {
        Some(m) => match &m.text {
            Some(t) => copy_string(t),
            None => String::new(),
        },
        None => String::new(),
    };
    let ghost md = from_module(*n);
    assert(module@ == md);
    let cs = &n.children;
    let ghost e0 = edges_v(edges@);
    let ghost s0 = scope_v(scope@);
    let mvv = chars_of(module.as_str());
    let mut i: usize = 0;
    while i < cs.len()
        invariant
            i <= cs@.len(),
            module@ == md,
            mvv@ == module@,
            edges_v(edges@) == e0 + py_import_from(cs@.take(i as int), md, file@).0,
            scope_v(scope@) == s0 + py_import_from(cs@.take(i as int), md, file@).1,
        decreases cs@.len() - i,
    {
        assert(cs@.take(i + 1).drop_last() =~= cs@.take(i as int));
        match from_name_exec(&cs[i], &module) {
            Some(name) => {
                let to = if mvv.len() == 0 {
                    copy_string(&name)
                } else {
                    let mut t = copy_string(&module);
                    push_str(&mut t, ".");
                    push_str(&mut t, name.as_str());
                    t
                };
                assert(to@ == from_target(md, name@));
                push_edge_to(edges, copy_string(file), copy_string(&to), EdgeKind::Imports);
                let ghost sc0 = scope@;
                scope.push((name, to));
                assert(scope_v(scope@) =~= scope_v(sc0).push((scope@[sc0.len() as int].0@, scope@[sc0.len() as int].1@)));
            },
            None => {},
        }
        i = i + 1;
        assert(edges_v(edges@) =~= e0 + py_import_from(cs@.take(i as int), md, file@).0);
        assert(scope_v(scope@) =~= s0 + py_import_from(cs@.take(i as int), md, file@).1);
    }
    assert(cs@.take(cs@.len() as int) =~= cs@);
}

fn decorators_exec(cs: &Vec<SyntaxNode>) -> (r: Vec<String>)
    ensures
        r.deep_view() == decorators_of(cs@),
{
    let mut r: Vec<String> = Vec::new();
    let mut i: usize = 0;
    while i < cs.len()
        invariant
            i <= cs@.len(),
            r.deep_view() == decorators_of(cs@.take(i as int)),
        decreases cs@.len() - i,
    {
        assert(cs@.take(i + 1).drop_last() =~= cs@.take(i as int));
        if kind_is(&cs[i], "decorator") {
            let ds = &cs[i].children;
            let ghost r0 = r.deep_view();
            let mut j: usize = 0;
            while j < ds.len()
                invariant
                    j <= ds@.len(),
                    r.deep_view() == r0 + decorator_names(ds@.take(j as int)),
                decreases ds@.len() - j,
            {
                assert(ds@.take(j + 1).drop_last() =~= ds@.take(j as int));
                let c = &ds[j];
                let ghost r1 = r.deep_view();
                if kind_is(c, "identifier") || kind_is(c, "call") || kind_is(c, "dotted_name") {
                    match &c.text {
                        Some(t) => {
                            let b = before_paren_exec(t);
                            r.push(b);
                            assert(r.deep_view() =~= r1.push(before_paren(text_of(*c))));
                        },
                        None => {},
                    }
                }
                j = j + 1;
                assert(r.deep_view() =~= r0 + decorator_names(ds@.take(j as int)));
            }
            assert(ds@.take(ds@.len() as int) =~= ds@);
        }
        i = i + 1;
        assert(r.deep_view() =~= decorators_of(cs@.take(i as int)));
    }
    assert(cs@.take(cs@.len() as int) =~= cs@);
    r
}

/// The plain value of an optional text.
pub open spec fn opt_text(o: Option<String>) -> Option<Seq<char>> {
    match o { Some(s) => Some(s@), None => None }
}

fn py_def_exec(n: &SyntaxNode, is_class: bool, is_async: bool, parent: &Option<String>, decorators: &Vec<String>,
    path: &String, nodes: &mut Vec<Node>, edges: &mut Vec<Edge>) -> (r: Option<String>)
    ensures
        ({
            let d = py_def(*n, is_class, is_async, opt_text(*parent), decorators.deep_view(), path@);
            &&& nodes_v(final(nodes)@) == nodes_v(old(nodes)@) + d.0
            &&& edges_v(final(edges)@) == edges_v(old(edges)@) + d.1
            &&& opt_text(r) == d.2
        }),
{
    let ghost d = py_def(*n, is_class, is_async, opt_text(*parent), decorators.deep_view(), path@);
    let name = match child_by_field(n, "name") {
        Some(x) => x,
        None => {
            assert(nodes_v(nodes@) =~= nodes_v(old(nodes)@) + d.0);
            assert(edges_v(edges@) =~= edges_v(old(edges)@) + d.1);
            return None;
        },
    };
    let t = match &name.text {
        Some(t) => t,
        None => {
            assert(nodes_v(nodes@) =~= nodes_v(old(nodes)@) + d.0);
            assert(edges_v(edges@) =~= edges_v(old(edges)@) + d.1);
            return None;
        },
    };
    let base = match parent {
        Some(p) => copy_string(p),
        None => copy_string(path),
    };
    let id = make_symbol_id(&base, t);
    let mut label = copy_string(t);
    if decorators.len() > 0 {
        push_str(&mut label, "@");
        let j = join_texts(decorators, ",");
        push_str(&mut label, j.as_str());
    }
    let kind = if is_class { NodeKind::Class } else { NodeKind::Function { is_async } };
    let ghost n0 = nodes_v(nodes@);
    nodes.push(Node {
        id: copy_string(&id),
        label,
        kind,
        file_path: copy_string(path),
        line: line_from_row(name.row),
        is_public: true,
        parent_id: Some(copy_string(&base)),
    });
    assert(nodes_v(nodes@) =~= n0 + d.0);
    let ghost e0 = edges_v(edges@);
    push_edge_to(edges, copy_string(&base), copy_string(&id), EdgeKind::Contains);
    let ghost e1 = edges_v(edges@);
    if is_class {
        match child_by_field(n, "superclasses") {
            Some(sc) => {
                let cs = &sc.children;
                let mut i: usize = 0;
                while i < cs.len()
                    invariant
                        i <= cs@.len(),
                        edges_v(edges@) == e1 + py_bases(cs@.take(i as int), id@, path@),
                    decreases cs@.len() - i,
                {
                    assert(cs@.take(i + 1).drop_last() =~= cs@.take(i as int));
                    let c = &cs[i];
                    if kind_is(c, "identifier") || kind_is(c, "attribute") {
                        match &c.text {
                            Some(b) => {
                                let to = make_symbol_id(path, b);
                                push_edge_to(edges, copy_string(&id), to, EdgeKind::Inherits);
                            },
                            None => {},
                        }
                    }
                    i = i + 1;
                    assert(edges_v(edges@) =~= e1 + py_bases(cs@.take(i as int), id@, path@));
                }
                assert(cs@.take(cs@.len() as int) =~= cs@);
            },
            None => {},
        }
    }
    assert(edges_v(edges@) =~= e0 + d.1);
    Some(id)
}

fn is_async_exec(n: &SyntaxNode) -> (r: bool)
    ensures
        r == is_async_def(*n),
{
    n.children.len() > 0 && kind_is(&n.children[0], "async")
}

fn decorated_target_exec(cs: &Vec<SyntaxNode>) -> (r: Option<usize>)
    ensures
        match r { Some(i) => decorated_target(cs@) == Some(i as int), None => decorated_target(cs@) is None },
{
    let mut i: usize = cs.len();
    assert(cs@.take(i as int) =~= cs@);
    while i > 0
        invariant
            i <= cs@.len(),
            decorated_target(cs@) == decorated_target(cs@.take(i as int)),
        decreases i,
    {
        assert(cs@.take(i as int).drop_last() =~= cs@.take(i - 1));
        if kind_is(&cs[i - 1], "class_definition") || kind_is(&cs[i - 1], "function_definition") {
            return Some(i - 1);
        }
        i = i - 1;
    }
    None
}

fn py_visit_exec(n: &SyntaxNode, parent: &Option<String>, file: &String, path: &String, nodes: &mut Vec<Node>,
    edges: &mut Vec<Edge>, scope: &mut Vec<(String, String)>)
    ensures
        state_of(final(nodes)@, final(edges)@, final(scope)@)
            == py_visit(*n, opt_text(*parent), file@, path@, state_of(old(nodes)@, old(edges)@, old(scope)@)),
    decreases n,
{
    let ghost st0 = state_of(nodes@, edges@, scope@);
    if kind_is(n, "decorated_definition") {
        match decorated_target_exec(&n.children) {
            Some(i) => {
                proof {
                    lemma_decorated_target(n.children@);
                }
                let t = &n.children[i];
                let decs = decorators_exec(&n.children);
                let is_class = kind_is(t, "class_definition");
                let is_async = is_async_exec(t);
                let id = py_def_exec(t, is_class, is_async, parent, &decs, path, nodes, edges);
                match id {
                    Some(x) => {
                        let p = Some(x);
                        proof {
                            assert(decreases_to!(*n => n.children));
                            assert(decreases_to!(n.children => n.children@));
                            assert(decreases_to!(n.children@ => n.children@[i as int]));
                            assert(decreases_to!(n.children@[i as int] => n.children@[i as int].children));
                        }
                        py_visit_list_exec(&t.children, &p, file, path, nodes, edges, scope);
                    },
                    None => {},
                }
            },
            None => {},
        }
    } else {
        let is_class = kind_is(n, "class_definition");
        let k = &n.kind;
        let next: Option<String> = if is_class || kind_is(n, "function_definition") {
            let no_decorators: Vec<String> = Vec::new();
            assert(no_decorators.deep_view() =~= Seq::<Seq<char>>::empty());
            let is_async = is_async_exec(n);
            let r = match py_def_exec(n, is_class, is_async, parent, &no_decorators, path, nodes, edges) {
                Some(id) => Some(id),
                None => match parent {
                    Some(p) => Some(copy_string(p)),
                    None => None,
                },
            };
            proof {
                let d = py_def(*n, n.kind@ == "class_definition"@, is_async_def(*n), opt_text(*parent), seq![], path@);
                assert(state_of(nodes@, edges@, scope@) =~= grow(st0, d.0, d.1));
                assert(opt_text(r) == match d.2 { Some(id) => Some(id), None => opt_text(*parent) });
            }
            r
        } else {
            if kind_is(n, "import_statement") {
                py_import_exec(&n.children, file, edges);
                assert(state_of(nodes@, edges@, scope@) =~= grow(st0, seq![], py_import(n.children@, file@)));
            } else if kind_is(n, "import_from_statement") {
                py_import_from_exec(n, file, edges, scope);
                proof {
                    let f = py_import_from(n.children@, from_module(*n), file@);
                    assert(state_of(nodes@, edges@, scope@) =~= PyState { nodes: st0.nodes, edges: st0.edges + f.0, scope: st0.scope + f.1 });
                }
            } else if kind_is(n, "call") {
                match parent {
                    Some(caller) => {
                        match child_by_field(n, "function") {
                            Some(f) => match &f.text {
                                Some(t) => {
                                    let to = call_target_exec(t, caller, scope);
                                    push_edge_to(edges, copy_string(caller), to, EdgeKind::Calls);
                                    assert(state_of(nodes@, edges@, scope@) =~= grow(st0, seq![], seq![edge_v(caller@, call_target(t@, caller@, st0.scope), EdgeKind::Calls)]));
                                },
                                None => {},
                            },
                            None => {},
                        }
                    },
                    None => {},
                }
            }
            match parent {
                Some(p) => Some(copy_string(p)),
                None => None,
            }
        };
        proof {
            assert(decreases_to!(*n => n.children));
        }
        py_visit_list_exec(&n.children, &next, file, path, nodes, edges, scope);
    }
}

fn py_visit_list_exec(cs: &Vec<SyntaxNode>, parent: &Option<String>, file: &String, path: &String, nodes: &mut Vec<Node>,
    edges: &mut Vec<Edge>, scope: &mut Vec<(String, String)>)
    ensures
        state_of(final(nodes)@, final(edges)@, final(scope)@)
            == py_visit_list(cs@, opt_text(*parent), file@, path@, state_of(old(nodes)@, old(edges)@, old(scope)@)),
    decreases cs,
{
    let ghost st0 = state_of(nodes@, edges@, scope@);
    let mut i: usize = 0;
    while i < cs.len()
        invariant
            i <= cs@.len(),
            state_of(nodes@, edges@, scope@) == py_visit_list(cs@.take(i as int), opt_text(*parent), file@, path@, st0),
        decreases cs@.len() - i,
    {
        assert(cs@.take(i + 1).drop_last() =~= cs@.take(i as int));
        assert(cs@.take(i + 1).last() == cs@[i as int]);
        proof {
            assert(decreases_to!(cs => cs@));
            assert(decreases_to!(cs@ => cs@[i as int]));
        }
        py_visit_exec(&cs[i], parent, file, path, nodes, edges, scope);
        i = i + 1;
    }
    assert(cs@.take(cs@.len() as int) =~= cs@);
}

/// Whether the graph is the one extracted from the Python syntax tree of the file: the
/// module node, then what the walk gathers; the counts of the metadata stay at zero.
pub open spec fn is_python_graph(g: CodeGraph, root: SyntaxNode, file_path: Seq<char>) -> bool {
    let path = file_path.map_values(|c: char| forward_slash(c));
    let module = symbol_node(path, path, NodeKind::Module, path, Some(1u32), true, None);
    let st = py_visit(root, None, file_path, path, PyState { nodes: seq![module], edges: seq![], scope: seq![] });
    &&& g.nv() == st.nodes
    &&& g.ev() == st.edges
    &&& g.control_flow@.len() == 0
    &&& crate::extract::fresh_meta(g.meta, "python"@, 0, 0)
}

/// Extracts the graph of a Python file from its syntax tree.
pub fn extract_python(root: &SyntaxNode, file_path: &str) -> (g: CodeGraph)
    ensures
        is_python_graph(g, *root, file_path@),
{
    let path = normalize_path(file_path);
    let file = to_owned_string(file_path);
    let mut nodes: Vec<Node> = Vec::new();
    let mut edges: Vec<Edge> = Vec::new();
    let mut scope: Vec<(String, String)> = Vec::new();
    nodes.push(Node {
        id: copy_string(&path),
        label: copy_string(&path),
        kind: NodeKind::Module,
        file_path: copy_string(&path),
        line: Some(1),
        is_public: true,
        parent_id: None,
    });
    let ghost module = symbol_node(path@, path@, NodeKind::Module, path@, Some(1u32), true, None);
    assert(state_of(nodes@, edges@, scope@) =~= PyState { nodes: seq![module], edges: seq![], scope: seq![] });
    let none: Option<String> = None;
    py_visit_exec(root, &none, &file, &path, &mut nodes, &mut edges, &mut scope);
    let meta = crate::extract::new_meta("python");
    CodeGraph { nodes, edges, control_flow: Vec::new(), meta }
}

/// A parser for the Python programming language.
pub struct PythonParser;

impl PythonParser {
    /// Creates a new parser.
    pub fn new() -> Self {
        PythonParser
    }
}

impl Default for PythonParser {
    fn default() -> Self {
        PythonParser
    }
}

impl LanguageParser for PythonParser {
    open spec fn claimed_extensions(&self) -> Seq<Seq<char>> {
        seq!["py"@]
    }

    open spec fn parses_to(&self, source: Seq<char>, file_path: Seq<char>, r: Result<CodeGraph, ParseError>) -> bool {
        &&& r is Ok
        &&& r matches Ok(g) ==> exists|t: SyntaxNode| tree_of_source(t, PYTHON_GRAMMAR, source)
            && #[trigger] is_python_graph(g, t, file_path)
    }

    fn language_name(&self) -> (r: &str)
        ensures
            r@ == "python"@,
    {
        "python"
    }

    fn supported_extensions(&self) -> (r: &[&str])
        ensures
            r@.map_values(|e: &str| e@) == seq!["py"@],
    {
        let r: &[&str] = &["py"];
        assert(r@.map_values(|e: &str| e@) =~= seq!["py"@]);
        r
    }

    fn parse(&self, source: &str, file_path: &str) -> (r: Result<CodeGraph, ParseError>)
        ensures
            r is Ok,
            r matches Ok(g) ==> exists|t: SyntaxNode| tree_of_source(t, PYTHON_GRAMMAR, source@)
                && #[trigger] is_python_graph(g, t, file_path@),
    {
        let grammar = python_grammar();
        match parse_syntax(&grammar, source) {
            Ok(root) => {
                let g = extract_python(&root, file_path);
                let r: Result<CodeGraph, ParseError> = Ok(g);
                assert(is_python_graph(r->Ok_0, root, file_path@));
                r
            },
            Err(_) => Err(parse_failure("Python", file_path)),
        }
    }
}


/// Whether `after` keeps the edges of `before` in front, as they were.
pub open spec fn py_edges_kept(before: PyState, after: PyState) -> bool {
    &&& before.edges.len() <= after.edges.len()
    &&& after.edges.take(before.edges.len() as int) == before.edges
}

proof fn lemma_kept_trans(a: PyState, b: PyState, c: PyState)
    requires
        py_edges_kept(a, b),
        py_edges_kept(b, c),
    ensures
        py_edges_kept(a, c),
{
    assert(c.edges.take(a.edges.len() as int) =~= c.edges.take(b.edges.len() as int).take(a.edges.len() as int));
}

proof fn lemma_kept_contains(a: PyState, b: PyState, e: EdgeV)
    requires
        py_edges_kept(a, b),
        a.edges.contains(e),
    ensures
        b.edges.contains(e),
{
    let k = choose|k: int| 0 <= k < a.edges.len() && a.edges[k] == e;
    assert(b.edges[k] == b.edges.take(a.edges.len() as int)[k]);
}

proof fn lemma_grow_kept(st: PyState, nodes: Seq<NodeV>, edges: Seq<EdgeV>)
    ensures
        py_edges_kept(st, grow(st, nodes, edges)),
{
    assert((st.edges + edges).take(st.edges.len() as int) =~= st.edges);
}

proof fn lemma_py_visit_keeps(n: SyntaxNode, parent: Option<Seq<char>>, file: Seq<char>, path: Seq<char>, st: PyState)
    ensures
        py_edges_kept(st, py_visit(n, parent, file, path, st)),
    decreases n,
{
    let k = n.kind@;
    if k == "decorated_definition"@ {
        match decorated_target(n.children@) {
            Some(i) => {
                lemma_decorated_target(n.children@);
                let t = n.children@[i];
                let d = py_def(t, t.kind@ == "class_definition"@, is_async_def(t), parent, decorators_of(n.children@), path);
                let g = grow(st, d.0, d.1);
                lemma_grow_kept(st, d.0, d.1);
                match d.2 {
                    Some(id) => {
                        lemma_py_list_keeps(t.children@, Some(id), file, path, g);
                        lemma_kept_trans(st, g, py_visit_list(t.children@, Some(id), file, path, g));
                    },
                    None => {},
                }
            },
            None => {
                assert(st.edges.take(st.edges.len() as int) =~= st.edges);
            },
        }
    } else {
        let (st1, next) = if k == "class_definition"@ || k == "function_definition"@ {
            let d = py_def(n, k == "class_definition"@, is_async_def(n), parent, seq![], path);
            lemma_grow_kept(st, d.0, d.1);
            (grow(st, d.0, d.1), match d.2 { Some(id) => Some(id), None => parent })
        } else if k == "import_statement"@ {
            lemma_grow_kept(st, seq![], py_import(n.children@, file));
            (grow(st, seq![], py_import(n.children@, file)), parent)
        } else if k == "import_from_statement"@ {
            let f = py_import_from(n.children@, from_module(n), file);
            let s2 = PyState { nodes: st.nodes, edges: st.edges + f.0, scope: st.scope + f.1 };
            assert(s2.edges.take(st.edges.len() as int) =~= st.edges);
            (s2, parent)
        } else if k == "call"@ && parent is Some {
            match field_child(n, "function"@) {
                Some(f) => match f.text {
                    Some(t) => {
                        let e = seq![edge_v(parent->0, call_target(t@, parent->0, st.scope), EdgeKind::Calls)];
                        lemma_grow_kept(st, seq![], e);
                        (grow(st, seq![], e), parent)
                    },
                    None => {
                        assert(st.edges.take(st.edges.len() as int) =~= st.edges);
                        (st, parent)
                    },
                },
                None => {
                    assert(st.edges.take(st.edges.len() as int) =~= st.edges);
                    (st, parent)
                },
            }
        } else {
            assert(st.edges.take(st.edges.len() as int) =~= st.edges);
            (st, parent)
        };
        lemma_py_list_keeps(n.children@, next, file, path, st1);
        lemma_kept_trans(st, st1, py_visit(n, parent, file, path, st));
    }
}

proof fn lemma_py_list_keeps(cs: Seq<SyntaxNode>, parent: Option<Seq<char>>, file: Seq<char>, path: Seq<char>, st: PyState)
    ensures
        py_edges_kept(st, py_visit_list(cs, parent, file, path, st)),
    decreases cs,
{
    if cs.len() == 0 {
        assert(st.edges.take(st.edges.len() as int) =~= st.edges);
    } else {
        let mid = py_visit_list(cs.drop_last(), parent, file, path, st);
        lemma_py_list_keeps(cs.drop_last(), parent, file, path, st);
        lemma_py_visit_keeps(cs.last(), parent, file, path, mid);
        lemma_kept_trans(st, mid, py_visit_list(cs, parent, file, path, st));
    }
}


proof fn lemma_kinds_differ()
    ensures
        "aliased_import"@ != "dotted_name"@,
        "import_statement"@ != "decorated_definition"@,
        "import_statement"@ != "class_definition"@,
        "import_statement"@ != "function_definition"@,
        "module"@ != "decorated_definition"@,
        "module"@ != "class_definition"@,
        "module"@ != "function_definition"@,
        "module"@ != "import_statement"@,
        "module"@ != "import_from_statement"@,
        "module"@ != "call"@,
{
    reveal_strlit("aliased_import");
    reveal_strlit("dotted_name");
    reveal_strlit("import_statement");
    reveal_strlit("decorated_definition");
    reveal_strlit("class_definition");
    reveal_strlit("function_definition");
    reveal_strlit("module");
    reveal_strlit("import_from_statement");
    reveal_strlit("call");
    assert("aliased_import"@.len() != "dotted_name"@.len());
    assert("import_statement"@.len() != "decorated_definition"@.len());
    assert("import_statement"@[0] != "class_definition"@[0]);
    assert("import_statement"@.len() != "function_definition"@.len());
    assert("module"@.len() != "decorated_definition"@.len());
    assert("module"@.len() != "class_definition"@.len());
    assert("module"@.len() != "function_definition"@.len());
    assert("module"@.len() != "import_statement"@.len());
    assert("module"@.len() != "import_from_statement"@.len());
    assert("module"@.len() != "call"@.len());
}

proof fn lemma_import_has(cs: Seq<SyntaxNode>, file: Seq<char>, j: int)
    requires
        0 <= j < cs.len(),
        cs[j].kind@ == "aliased_import"@,
        field_child(cs[j], "name"@) matches Some(nm) && nm.text is Some,
    ensures
        py_import(cs, file).contains(edge_v(file, text_of(field_child(cs[j], "name"@)->0), EdgeKind::Imports)),
    decreases cs.len(),
{
    let e = edge_v(file, text_of(field_child(cs[j], "name"@)->0), EdgeKind::Imports);
    let front = py_import(cs.drop_last(), file);
    if j == cs.len() - 1 {
        let nm = field_child(cs[j], "name"@)->0;
        assert(cs.last() == cs[j]);
        assert(text_of(nm) == nm.text->0@);
        lemma_kinds_differ();
        assert(cs.last().kind@ != "dotted_name"@);
        assert(field_child(cs.last(), "name"@) == Some(nm));
        assert(py_import(cs, file) =~= front + seq![e]);
        assert(py_import(cs, file)[front.len() as int] == e);
    } else {
        assert(cs.drop_last()[j] == cs[j]);
        lemma_import_has(cs.drop_last(), file, j);
        let k = choose|k: int| 0 <= k < front.len() && front[k] == e;
        let more = py_import(cs, file).skip(front.len() as int);
        assert(py_import(cs, file) =~= front + more);
        assert(py_import(cs, file)[k] == e);
    }
}

proof fn lemma_list_has_import(cs: Seq<SyntaxNode>, i: int, e: EdgeV, parent: Option<Seq<char>>, file: Seq<char>,
    path: Seq<char>, st: PyState)
    requires
        0 <= i < cs.len(),
        cs[i].kind@ == "import_statement"@,
        py_import(cs[i].children@, file).contains(e),
    ensures
        py_visit_list(cs, parent, file, path, st).edges.contains(e),
    decreases cs.len(),
{
    let mid = py_visit_list(cs.drop_last(), parent, file, path, st);
    if i == cs.len() - 1 {
        let n = cs.last();
        let imp = py_import(n.children@, file);
        let g = grow(mid, seq![], imp);
        lemma_kinds_differ();
        assert(n.kind@ != "decorated_definition"@);
        assert(n.kind@ != "class_definition"@ && n.kind@ != "function_definition"@);
        assert(py_visit(n, parent, file, path, mid).edges == py_visit_list(n.children@, parent, file, path, g).edges);
        assert(py_visit_list(cs, parent, file, path, st).edges == py_visit(n, parent, file, path, mid).edges);
        let k = choose|k: int| 0 <= k < imp.len() && imp[k] == e;
        assert(g.edges[mid.edges.len() + k] == e);
        lemma_py_list_keeps(n.children@, parent, file, path, g);
        lemma_kept_contains(g, py_visit_list(n.children@, parent, file, path, g), e);
    } else {
        assert(cs.drop_last()[i] == cs[i]);
        lemma_list_has_import(cs.drop_last(), i, e, parent, file, path, st);
        lemma_py_visit_keeps(cs.last(), parent, file, path, mid);
        lemma_kept_contains(mid, py_visit_list(cs, parent, file, path, st), e);
    }
}

/// For `import X as Y` the import edge leads to the module `X` (the text of the aliased
/// import's `name` field), whatever the alias: where the module's statements include such an
/// import, the file's graph has an `Imports` edge from the file to `X`.
pub proof fn lemma_import_as_targets_module(g: CodeGraph, root: SyntaxNode, file_path: Seq<char>, i: int, j: int)
    requires
        is_python_graph(g, root, file_path),
        root.kind@ == "module"@,
        0 <= i < root.children@.len(),
        root.children@[i].kind@ == "import_statement"@,
        0 <= j < root.children@[i].children@.len(),
        root.children@[i].children@[j].kind@ == "aliased_import"@,
        field_child(root.children@[i].children@[j], "name"@) matches Some(nm) && nm.text is Some,
    ensures
        g.ev().contains(edge_v(file_path, text_of(field_child(root.children@[i].children@[j], "name"@)->0),
            EdgeKind::Imports)),
{
    let path = file_path.map_values(|c: char| forward_slash(c));
    let module = symbol_node(path, path, NodeKind::Module, path, Some(1u32), true, None);
    let st0 = PyState { nodes: seq![module], edges: seq![], scope: seq![] };
    let e = edge_v(file_path, text_of(field_child(root.children@[i].children@[j], "name"@)->0), EdgeKind::Imports);
    lemma_import_has(root.children@[i].children@, file_path, j);
    lemma_list_has_import(root.children@, i, e, None, file_path, path, st0);
    lemma_kinds_differ();
    assert(root.kind@ != "decorated_definition"@);
    assert(root.kind@ != "import_statement"@ && root.kind@ != "import_from_statement"@);
    assert(py_visit(root, None, file_path, path, st0).edges == py_visit_list(root.children@, None, file_path, path, st0).edges);
}

} // verus!
