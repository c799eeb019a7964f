//! A parser driven by a language description: tree-sitter queries pick out functions,
//! classes and imports, whose captures `name`, `node` and `path` become nodes and edges.

use vstd::prelude::*;
use crate::extract::{line_from_row, line_of, make_symbol_id, symbol_id};
use crate::ir::{CodeGraph, Edge, EdgeKind, EdgeV, GraphMeta, Node, NodeKind, NodeV, edges_v, nodes_v};
use crate::parser::{LanguageParser, LanguageRegistry, ParseError, file_name, file_name_exec, owned_strings};
use crate::syntax::{C_SHARP_GRAMMAR, DART_GRAMMAR, Grammar, LUA_GRAMMAR, PHP_GRAMMAR, RUBY_GRAMMAR, SWIFT_GRAMMAR,
    c_sharp_grammar, dart_grammar, is_span_text, lua_grammar, php_grammar, query_capture_index, query_compiles,
    query_matches, ruby_grammar, str_get, swift_grammar, ts_capture_index, ts_new_parser, ts_parse, ts_query_matches,
    ts_query_new, ts_set_language, version_accepted};
use crate::text::{chars_of, copy_string, push_str, same_text, string_from_chars, to_owned_string};

verus! {

/// Metadata about the language being described.
pub struct LanguageMeta {
    /// The readable name of the language, e.g. "ruby".
    pub name: String,
    /// The file extensions of the language, e.g. ["rb"].
    pub extensions: Vec<String>,
    /// The grammar to use, e.g. "tree-sitter-ruby".
    pub grammar: String,
}

/// The tree-sitter queries of a language; those for functions, classes and imports are run.
pub struct QueryConfig {
    pub functions: Option<String>,
    pub async_functions: Option<String>,
    pub classes: Option<String>,
    pub interfaces: Option<String>,
    pub imports: Option<String>,
    pub inheritance: Option<String>,
    pub exports: Option<String>,
}

/// A language description: its metadata and its queries.
pub struct LangConfig {
    pub language: LanguageMeta,
    pub queries: QueryConfig,
}

/// A capture of a query match, as plain values: the capture's index, the captured node's
/// text (where it is UTF-8) and the row where the node starts.
pub struct Capture {
    pub index: u32,
    pub text: Option<String>,
    pub row: usize,
}

/// A capture as plain values.
pub open spec fn capture_v(c: Capture) -> (u32, Option<Seq<char>>, usize) {
    (c.index, match c.text { Some(t) => Some(t@), None => None }, c.row)
}

/// What a query run gives: the indices of the two captures read (`name` and `node`, or
/// `path`), and the matches with their captures.
pub struct QueryRun {
    pub first: Option<u32>,
    pub second: Option<u32>,
    pub matches: Vec<Vec<Capture>>,
}

/// The name (the text of the last readable `name` capture) and line (of the last `node`
/// capture) that a match gives.
pub open spec fn match_symbol(m: Seq<(u32, Option<Seq<char>>, usize)>, name_idx: Option<u32>, node_idx: Option<u32>)
    -> (Option<Seq<char>>, Option<u32>)
    decreases m.len(),
{
    if m.len() == 0 {
        (None, None)
    } else {
        let r = match_symbol(m.drop_last(), name_idx, node_idx);
        let c = m.last();
        (if name_idx == Some(c.0) && c.1 is Some { c.1 } else { r.0 }, if node_idx == Some(c.0) { line_of(c.2) } else { r.1 })
    }
}

/// The nodes of the matches that name a symbol, of the kind.
pub open spec fn symbol_nodes(ms: Seq<Seq<(u32, Option<Seq<char>>, usize)>>, name_idx: Option<u32>, node_idx: Option<u32>,
    file: Seq<char>, kind: NodeKind) -> Seq<NodeV>
    decreases ms.len(),
{
    if ms.len() == 0 {
        seq![]
    } else {
        let s = match_symbol(ms.last(), name_idx, node_idx);
        symbol_nodes(ms.drop_last(), name_idx, node_idx, file, kind) + match s.0 {
            Some(n) => seq![NodeV { id: symbol_id(file, n), label: n, kind, file_path: file, line: s.1, is_public: true, parent_id: None }],
            None => seq![],
        }
    }
}

/// Import edges from the file to the text of each readable `path` capture of a match.
pub open spec fn capture_imports(m: Seq<(u32, Option<Seq<char>>, usize)>, path_idx: Option<u32>, file: Seq<char>) -> Seq<EdgeV>
    decreases m.len(),
{
    if m.len() == 0 {
        seq![]
    } else {
        let c = m.last();
        capture_imports(m.drop_last(), path_idx, file) + if path_idx == Some(c.0) && c.1 is Some {
            seq![EdgeV { from: file, to: c.1->0, kind: EdgeKind::Imports }]
        } else {
            seq![]
        }
    }
}

/// The import edges of the matches.
pub open spec fn import_edges(ms: Seq<Seq<(u32, Option<Seq<char>>, usize)>>, path_idx: Option<u32>, file: Seq<char>) -> Seq<EdgeV>
    decreases ms.len(),
{
    if ms.len() == 0 {
        seq![]
    } else {
        import_edges(ms.drop_last(), path_idx, file) + capture_imports(ms.last(), path_idx, file)
    }
}

/// The nodes and edges of a file that the query runs give: the file node, the functions,
/// the classes, and the imports.
pub open spec fn generic_graph(file: Seq<char>,
    fns: Option<(Option<u32>, Option<u32>, Seq<Seq<(u32, Option<Seq<char>>, usize)>>)>,
    classes: Option<(Option<u32>, Option<u32>, Seq<Seq<(u32, Option<Seq<char>>, usize)>>)>,
    imports: Option<(Option<u32>, Option<u32>, Seq<Seq<(u32, Option<Seq<char>>, usize)>>)>) -> (Seq<NodeV>, Seq<EdgeV>)
{
    let file_node = NodeV {
        id: file,
        label: match file_name(file) { Some(n) => n, None => Seq::empty() },
        kind: NodeKind::File,
        file_path: file,
        line: Some(1u32),
        is_public: true,
        parent_id: None,
    };
    let f = match fns { Some(r) => symbol_nodes(r.2, r.0, r.1, file, NodeKind::Function { is_async: false }), None => seq![] };
    let c = match classes { Some(r) => symbol_nodes(r.2, r.0, r.1, file, NodeKind::Class), None => seq![] };
    let e = match imports { Some(r) => import_edges(r.2, r.0, file), None => seq![] };
    (seq![file_node] + f + c, e)
}

/// The captures of a match, as plain values.
pub open spec fn captures_v(m: Seq<Capture>) -> Seq<(u32, Option<Seq<char>>, usize)> {
    m.map_values(|c: Capture| capture_v(c))
}

/// Matches as plain values.
pub open spec fn matches_v(ms: Seq<Vec<Capture>>) -> Seq<Seq<(u32, Option<Seq<char>>, usize)>> {
    ms.map_values(|m: Vec<Capture>| captures_v(m@))
}

fn match_symbol_exec(m: &Vec<Capture>, name_idx: Option<u32>, node_idx: Option<u32>) -> (r: (Option<String>, Option<u32>))
    ensures
        (match r.0 { Some(t) => Some(t@), None => None }, r.1) == match_symbol(captures_v(m@), name_idx, node_idx),
{
    let mut name: Option<String> = None;
    let mut line: Option<u32> = None;
    let mut i: usize = 0;
    while i < m.len()
        invariant
            i <= m@.len(),
            (match name { Some(t) => Some(t@), None => None }, line) == match_symbol(captures_v(m@.take(i as int)), name_idx, node_idx),
        decreases m@.len() - i,
    {
        assert(captures_v(m@.take(i + 1)).drop_last() =~= captures_v(m@.take(i as int)));
        assert(captures_v(m@.take(i + 1)).last() == capture_v(m@[i as int]));
        let c = &m[i];
        match name_idx {
            Some(idx) => {
                if c.index == idx {
                    match &c.text {
                        Some(t) => {
                            name = Some(copy_string(t));
                        },
                        None => {},
                    }
                }
            },
            None => {},
        }
        match node_idx {
            Some(idx) => {
                if c.index == idx {
                    line = line_from_row(c.row);
                }
            },
            None => {},
        }
        i = i + 1;
    }
    assert(m@.take(m@.len() as int) =~= m@);
    (name, line)
}

fn push_node(nodes: &mut Vec<Node>, n: Node)
    ensures
        nodes_v(final(nodes)@) == nodes_v(old(nodes)@).push(n@),
{
    nodes.push(n);
    assert(nodes_v(nodes@) =~= nodes_v(old(nodes)@).push(n@));
}

fn symbol_nodes_exec(ms: &Vec<Vec<Capture>>, name_idx: Option<u32>, node_idx: Option<u32>, file: &String, kind: NodeKind,
    nodes: &mut Vec<Node>)
    ensures
        nodes_v(final(nodes)@) == nodes_v(old(nodes)@) + symbol_nodes(matches_v(ms@), name_idx, node_idx, file@, kind),
{
    let ghost n0 = nodes_v(nodes@);
    let mut i: usize = 0;
    while i < ms.len()
        invariant
            i <= ms@.len(),
            nodes_v(nodes@) == n0 + symbol_nodes(matches_v(ms@.take(i as int)), name_idx, node_idx, file@, kind),
        decreases ms@.len() - i,
    {
        assert(matches_v(ms@.take(i + 1)).drop_last() =~= matches_v(ms@.take(i as int)));
        assert(matches_v(ms@.take(i + 1)).last() == captures_v(ms@[i as int]@));
        let (name, line) = match_symbol_exec(&ms[i], name_idx, node_idx);
        match name {
            Some(n) => {
                push_node(nodes, Node {
                    id: make_symbol_id(file, &n),
                    label: n,
                    kind,
                    file_path: copy_string(file),
                    line,
                    is_public: true,
                    parent_id: None,
                });
            },
            None => {},
        }
        i = i + 1;
        assert(nodes_v(nodes@) =~= n0 + symbol_nodes(matches_v(ms@.take(i as int)), name_idx, node_idx, file@, kind));
    }
    assert(ms@.take(ms@.len() as int) =~= ms@);
}

fn push_edge(edges: &mut Vec<Edge>, from: String, to: String, kind: EdgeKind)
    ensures
        edges_v(final(edges)@) == edges_v(old(edges)@).push(EdgeV { from: from@, to: to@, kind }),
{
    edges.push(Edge { from_id: from, to_id: to, kind });
    assert(edges_v(edges@) =~= edges_v(old(edges)@).push(EdgeV { from: from@, to: to@, kind }));
}

fn import_edges_exec(ms: &Vec<Vec<Capture>>, path_idx: Option<u32>, file: &String, edges: &mut Vec<Edge>)
    ensures
        edges_v(final(edges)@) == edges_v(old(edges)@) + import_edges(matches_v(ms@), path_idx, file@),
{
    let ghost e0 = edges_v(edges@);
    let mut i: usize = 0;
    while i < ms.len()
        invariant
            i <= ms@.len(),
            edges_v(edges@) == e0 + import_edges(matches_v(ms@.take(i as int)), path_idx, file@),
        decreases ms@.len() - i,
    {
        assert(matches_v(ms@.take(i + 1)).drop_last() =~= matches_v(ms@.take(i as int)));
        assert(matches_v(ms@.take(i + 1)).last() == captures_v(ms@[i as int]@));
        let m = &ms[i];
        let ghost e1 = edges_v(edges@);
        let mut k: usize = 0;
        while k < m.len()
            invariant
                k <= m@.len(),
                edges_v(edges@) == e1 + capture_imports(captures_v(m@.take(k as int)), path_idx, file@),
            decreases m@.len() - k,
        {
            assert(captures_v(m@.take(k + 1)).drop_last() =~= captures_v(m@.take(k as int)));
            assert(captures_v(m@.take(k + 1)).last() == capture_v(m@[k as int]));
            let c = &m[k];
            match path_idx {
                Some(idx) => {
                    if c.index == idx {
                        match &c.text {
                            Some(t) => push_edge(edges, copy_string(file), copy_string(t), EdgeKind::Imports),
                            None => {},
                        }
                    }
                },
                None => {},
            }
            k = k + 1;
            assert(edges_v(edges@) =~= e1 + capture_imports(captures_v(m@.take(k as int)), path_idx, file@));
        }
        assert(m@.take(m@.len() as int) =~= m@);
        i = i + 1;
        assert(edges_v(edges@) =~= e0 + import_edges(matches_v(ms@.take(i as int)), path_idx, file@));
    }
    assert(ms@.take(ms@.len() as int) =~= ms@);
}

/// A query run as plain values, where there is one.
pub open spec fn opt_run_v(r: Option<QueryRun>) -> Option<(Option<u32>, Option<u32>, Seq<Seq<(u32, Option<Seq<char>>, usize)>>)> {
    match r {
        Some(q) => Some((q.first, q.second, matches_v(q.matches@))),
        None => None,
    }
}

/// Whether the graph is the one that the query runs give for the file of the language.
pub open spec fn is_generic_graph(g: CodeGraph, language: Seq<char>, file: Seq<char>, fns: Option<QueryRun>,
    classes: Option<QueryRun>, imports: Option<QueryRun>) -> bool
{
    let st = generic_graph(file, opt_run_v(fns), opt_run_v(classes), opt_run_v(imports));
    &&& g.nv() == st.0
    &&& g.ev() == st.1
    &&& g.control_flow@.len() == 0
    &&& g.meta.language@ == language
    &&& g.meta.source_root@ == Seq::<char>::empty()
    &&& g.meta.generated_at@ == Seq::<char>::empty()
    &&& g.meta.node_count == g.nodes@.len()
    &&& g.meta.edge_count == g.edges@.len()
}

/// Builds the graph of a file from the runs of its language's function, class and import
/// queries (each where the language has that query).
pub fn graph_from_runs(language: &str, file_path: &str, fns: &Option<QueryRun>, classes: &Option<QueryRun>,
    imports: &Option<QueryRun>) -> (g: CodeGraph)
    ensures
        is_generic_graph(g, language@, file_path@, *fns, *classes, *imports),
{
    let file = to_owned_string(file_path);
    let label = match file_name_exec(&chars_of(file_path)) {
        Some(v) => string_from_chars(v.as_slice()),
        None => String::new(),
    };
    let mut nodes: Vec<Node> = Vec::new();
    let mut edges: Vec<Edge> = Vec::new();
    push_node(&mut nodes, Node {
        id: copy_string(&file),
        label,
        kind: NodeKind::File,
        file_path: copy_string(&file),
        line: Some(1),
        is_public: true,
        parent_id: None,
    });
    assert(edges_v(edges@) =~= Seq::<EdgeV>::empty());
    match fns {
        Some(r) => symbol_nodes_exec(&r.matches, r.first, r.second, &file, NodeKind::Function { is_async: false }, &mut nodes),
        None => {},
    }
    match classes {
        Some(r) => symbol_nodes_exec(&r.matches, r.first, r.second, &file, NodeKind::Class, &mut nodes),
        None => {},
    }
    match imports {
        Some(r) => import_edges_exec(&r.matches, r.first, &file, &mut edges),
        None => {},
    }
    let ghost st = generic_graph(file_path@, opt_run_v(*fns), opt_run_v(*classes), opt_run_v(*imports));
    assert(nodes_v(nodes@) =~= st.0);
    assert(edges_v(edges@) =~= st.1);
    let meta = GraphMeta {
        language: to_owned_string(language),
        source_root: String::new(),
        generated_at: String::new(),
        node_count: nodes.len(),
        edge_count: edges.len(),
    };
    CodeGraph { nodes, edges, control_flow: Vec::new(), meta }
}

/// Whether the grammar is one that the library has: Ruby, Swift, C#, PHP, Dart or Lua.
pub open spec fn grammar_known(name: Seq<char>) -> bool {
    name == "tree-sitter-ruby"@ || name == "tree-sitter-swift"@ || name == "tree-sitter-c-sharp"@
        || name == "tree-sitter-php"@ || name == "tree-sitter-dart"@ || name == "tree-sitter-lua"@
}

/// The number by which the library tells apart the grammar of that name.
pub open spec fn grammar_id(name: Seq<char>) -> u32 {
    if name == "tree-sitter-ruby"@ {
        RUBY_GRAMMAR
    } else if name == "tree-sitter-swift"@ {
        SWIFT_GRAMMAR
    } else if name == "tree-sitter-c-sharp"@ {
        C_SHARP_GRAMMAR
    } else if name == "tree-sitter-php"@ {
        PHP_GRAMMAR
    } else if name == "tree-sitter-dart"@ {
        DART_GRAMMAR
    } else {
        LUA_GRAMMAR
    }
}

/// The grammar of a name; an unknown name is refused with `Unknown grammar: ` and the name,
/// for no file.
pub fn get_language(name: &str) -> (r: Result<Grammar, ParseError>)
    ensures
        grammar_known(name@) <==> r is Ok,
        r matches Ok(g) ==> g.id() == grammar_id(name@) && g.version() == 14,
        !grammar_known(name@) ==> (r matches Err(e) && e.message@ == "Unknown grammar: "@ + name@
            && e.file_path@ == Seq::<char>::empty() && e.line is None),
{
    let n = to_owned_string(name);
    if same_text(&n, &to_owned_string("tree-sitter-ruby")) {
        Ok(ruby_grammar())
    } else if same_text(&n, &to_owned_string("tree-sitter-swift")) {
        Ok(swift_grammar())
    } else if same_text(&n, &to_owned_string("tree-sitter-c-sharp")) {
        Ok(c_sharp_grammar())
    } else if same_text(&n, &to_owned_string("tree-sitter-php")) {
        Ok(php_grammar())
    } else if same_text(&n, &to_owned_string("tree-sitter-dart")) {
        Ok(dart_grammar())
    } else if same_text(&n, &to_owned_string("tree-sitter-lua")) {
        Ok(lua_grammar())
    } else {
        let mut message = to_owned_string("Unknown grammar: ");
        push_str(&mut message, name);
        Err(ParseError { message, file_path: String::new(), line: None })
    }
}

/// Whether the error is the one a query run gives for the file where tree-sitter refuses
/// the query: its reason follows the colon.
pub open spec fn query_failed(e: ParseError, file_path: Seq<char>) -> bool {
    &&& e.file_path@ == file_path
    &&& e.line is None
    &&& exists|why: Seq<char>| #[trigger] e.message@ == "Invalid query string: "@ + why
}

fn query_error(message: String, file_path: &str) -> (e: ParseError)
    ensures
        e.message == message,
        e.file_path@ == file_path@,
        e.line is None,
{
    ParseError { message, file_path: to_owned_string(file_path), line: None }
}

/// Whether the captures are those of a match that tree-sitter found, each with the text
/// between its node's bytes and the row where the node starts.
pub open spec fn captures_of(cs: Seq<Capture>, raw: Seq<(u32, usize, usize, usize)>, text: Seq<char>) -> bool {
    &&& cs.len() == raw.len()
    &&& forall|k: int| 0 <= k < cs.len() ==> {
        &&& (#[trigger] cs[k]).index == raw[k].0
        &&& is_span_text(cs[k].text, text, raw[k].1, raw[k].2)
        &&& cs[k].row == raw[k].3
    }
}

/// Whether the run is that of the query text over the text with the grammar: the indices
/// of the captures named `first` and `second` (where given), and each match that
/// tree-sitter finds, in order.
pub open spec fn is_run_of(q: QueryRun, grammar: u32, query: Seq<char>, text: Seq<char>, first: Seq<char>,
    second: Option<Seq<char>>) -> bool {
    let raw = query_matches(grammar, query, text);
    &&& q.first == query_capture_index(grammar, query, first)
    &&& q.second == match second {
        Some(s) => query_capture_index(grammar, query, s),
        None => None,
    }
    &&& q.matches@.len() == raw.len()
    &&& forall|i: int| 0 <= i < raw.len() ==> captures_of((#[trigger] q.matches@[i])@, raw[i], text)
}

/// Runs a query over the source: the indices of the captures named `first` and `second`
/// (where given), and the captures of each match. A query that tree-sitter refuses is
/// refused with its reason.
fn run_query(query_text: &String, grammar: &Grammar, source: &str, file_path: &str, first: &str,
    second: Option<&str>) -> (r: Result<QueryRun, ParseError>)
    requires
        version_accepted(grammar.version()),
    ensures
        r is Ok <==> query_compiles(grammar.id(), query_text@),
        r matches Err(e) ==> query_failed(e, file_path@),
        r matches Ok(q) ==> is_run_of(q, grammar.id(), query_text@, source@, first@,
            match second { Some(s) => Some(s@), None => None }),
{
    let query = match ts_query_new(grammar, query_text.as_str()) {
        Ok(q) => q,
        Err(why) => {
            let mut message = to_owned_string("Invalid query string: ");
            push_str(&mut message, why.as_str());
            let e = query_error(message, file_path);
            assert(e.message@ == "Invalid query string: "@ + why@);
            return Err(e);
        },
    };
    let mut parser = match ts_set_language(ts_new_parser(), grammar) {
        Ok(p) => p,
        Err(_) => {
            return Err(query_error(to_owned_string("Failed to set language for tree-sitter"), file_path));
        },
    };
    let tree = match ts_parse(&mut parser, source) {
        Some(t) => t,
        None => {
            return Err(query_error(to_owned_string("Failed to parse source code"), file_path));
        },
    };
    let raw = ts_query_matches(&query, &tree);
    let ghost qm = query_matches(grammar.id(), query_text@, source@);
    let mut matches: Vec<Vec<Capture>> = Vec::new();
    let mut i: usize = 0;
    while i < raw.len()
        invariant
            i <= raw@.len(),
            raw@.len() == qm.len(),
            forall|j: int| 0 <= j < raw@.len() ==> #[trigger] raw@[j]@ == qm[j],
            matches@.len() == i,
            forall|j: int| 0 <= j < i ==> captures_of((#[trigger] matches@[j])@, qm[j], source@),
        decreases raw@.len() - i,
    {
        let m = &raw[i];
        let mut caps: Vec<Capture> = Vec::new();
        let mut k: usize = 0;
        while k < m.len()
            invariant
                k <= m@.len(),
                caps@.len() == k,
                forall|c: int| 0 <= c < k ==> {
                    &&& (#[trigger] caps@[c]).index == m@[c].0
                    &&& is_span_text(caps@[c].text, source@, m@[c].1, m@[c].2)
                    &&& caps@[c].row == m@[c].3
                },
            decreases m@.len() - k,
        {
            let (index, start, end, row) = m[k];
            caps.push(Capture { index, text: str_get(source, start, end), row });
            k = k + 1;
        }
        assert(raw@[i as int]@ == qm[i as int]);
        assert(captures_of(caps@, qm[i as int], source@));
        matches.push(caps);
        i = i + 1;
    }
    let first_idx = ts_capture_index(&query, first);
    let second_idx = match second {
        Some(name) => ts_capture_index(&query, name),
        None => None,
    };
    Ok(QueryRun { first: first_idx, second: second_idx, matches })
}

/// Whether each query the description has compiles for the grammar.
pub open spec fn queries_compile(q: QueryConfig, grammar: u32) -> bool {
    &&& (q.functions matches Some(t) ==> query_compiles(grammar, t@))
    &&& (q.classes matches Some(t) ==> query_compiles(grammar, t@))
    &&& (q.imports matches Some(t) ==> query_compiles(grammar, t@))
}

/// Whether the optional run is that of the optional query over the text: there is a run
/// exactly where there is a query, and it reads the captures named `first` and `second`.
pub open spec fn opt_run_of(run: Option<QueryRun>, query: Option<String>, grammar: u32, text: Seq<char>,
    first: Seq<char>, second: Option<Seq<char>>) -> bool {
    &&& (run is Some <==> query is Some)
    &&& (run matches Some(q) ==> is_run_of(q, grammar, query->0@, text, first, second))
}

/// Whether the three runs are those of the description's function, class and import
/// queries over the text, with the description's grammar.
pub open spec fn runs_of(f: Option<QueryRun>, c: Option<QueryRun>, i: Option<QueryRun>, config: LangConfig,
    text: Seq<char>) -> bool {
    let g = grammar_id(config.language.grammar@);
    &&& opt_run_of(f, config.queries.functions, g, text, "name"@, Some("node"@))
    &&& opt_run_of(c, config.queries.classes, g, text, "name"@, Some("node"@))
    &&& opt_run_of(i, config.queries.imports, g, text, "path"@, None)
}

/// A parser driven by a language description.
pub struct GenericParser {
    config: LangConfig,
    extensions: Vec<String>,
}

fn copy_strings(v: &Vec<String>) -> (r: Vec<String>)
    ensures
        r.deep_view() == v.deep_view(),
{
    let mut r: Vec<String> = Vec::new();
    let mut i: usize = 0;
    while i < v.len()
        invariant
            i <= v@.len(),
            r.deep_view() == v.deep_view().take(i as int),
        decreases v@.len() - i,
    {
        let ghost r0 = r.deep_view();
        let c = copy_string(&v[i]);
        assert(v.deep_view()[i as int] == v@[i as int]@);
        r.push(c);
        assert(r.deep_view() =~= r0.push(v.deep_view()[i as int]));
        i = i + 1;
        assert(r.deep_view() =~= v.deep_view().take(i as int));
    }
    assert(v.deep_view().take(v@.len() as int) =~= v.deep_view());
    r
}

impl GenericParser {
    /// The description the parser runs.
    pub closed spec fn lang_config(&self) -> LangConfig {
        self.config
    }

    /// The extensions the parser claims.
    pub closed spec fn extension_names(&self) -> Seq<Seq<char>> {
        self.extensions.deep_view()
    }

    /// Creates a parser from a language description; it claims the extensions listed there.
    pub fn new(config: LangConfig) -> (r: Self)
        ensures
            r.lang_config() == config,
            r.extension_names() == config.language.extensions.deep_view(),
    {
        let extensions = copy_strings(&config.language.extensions);
        GenericParser { config, extensions }
    }
}

/// Hands the references out for as long as the program runs (`Vec::leak`).
#[verifier::external_body]
fn leak_strs<'a>(refs: Vec<&'a str>) -> (r: &'a [&'a str])
    ensures
        r@ == refs@,
{
    refs.leak()
}

impl LanguageParser for GenericParser {
    open spec fn claimed_extensions(&self) -> Seq<Seq<char>> {
        self.extension_names()
    }

    open spec fn parses_to(&self, source: Seq<char>, file_path: Seq<char>, r: Result<CodeGraph, ParseError>) -> bool {
        &&& !grammar_known(self.lang_config().language.grammar@) ==> (r matches Err(e)
            && e.message@ == "Unknown grammar: "@ + self.lang_config().language.grammar@
            && e.file_path@ == Seq::<char>::empty() && e.line is None)
        &&& grammar_known(self.lang_config().language.grammar@) ==> (r is Ok <==> queries_compile(
            self.lang_config().queries, grammar_id(self.lang_config().language.grammar@)))
        &&& grammar_known(self.lang_config().language.grammar@) && r is Err ==> query_failed(r->Err_0, file_path)
        &&& r matches Ok(g) ==> exists|f: Option<QueryRun>, c: Option<QueryRun>, i: Option<QueryRun>|
            runs_of(f, c, i, self.lang_config(), source)
            && #[trigger] is_generic_graph(g, self.lang_config().language.name@, file_path, f, c, i)
    }

    fn language_name(&self) -> (r: &str)
        ensures
            r@ == self.lang_config().language.name@,
    {
        self.config.language.name.as_str()
    }

    fn supported_extensions(&self) -> (r: &[&str])
        ensures
            r@.map_values(|e: &str| e@) == self.extension_names(),
    {
        let mut refs: Vec<&str> = Vec::new();
        let mut i: usize = 0;
        while i < self.extensions.len()
            invariant
                i <= self.extensions@.len(),
                refs@.map_values(|e: &str| e@) == self.extensions.deep_view().take(i as int),
            decreases self.extensions@.len() - i,
        {
            let ghost before = refs@;
            let e = self.extensions[i].as_str();
            refs.push(e);
            proof {
                assert(refs@ == before.push(e));
                assert(e@ == self.extensions@[i as int]@);
                assert(self.extensions.deep_view()[i as int] == self.extensions@[i as int]@);
                let m = refs@.map_values(|e: &str| e@);
                let t = self.extensions.deep_view().take(i + 1);
                assert(before.map_values(|e: &str| e@).len() == before.len());
                assert(before.len() == i);
                assert(refs@.len() == i + 1);
                assert(m.len() == t.len());
                assert forall|k: int| 0 <= k < m.len() implies m[k] == t[k] by {
                    if k < i {
                        assert(m[k] == before.map_values(|e: &str| e@)[k]);
                        assert(t[k] == self.extensions.deep_view().take(i as int)[k]);
                    }
                }
                assert(m =~= t);
            }
            i = i + 1;
        }
        assert(self.extensions.deep_view().take(i as int) =~= self.extensions.deep_view());
        leak_strs(refs)
    }

    fn parse(&self, source: &str, file_path: &str) -> (r: Result<CodeGraph, ParseError>)
        ensures
            !grammar_known(self.lang_config().language.grammar@) ==> (r matches Err(e)
                && e.message@ == "Unknown grammar: "@ + self.lang_config().language.grammar@
                && e.file_path@ == Seq::<char>::empty() && e.line is None),
            grammar_known(self.lang_config().language.grammar@) ==> (r is Ok <==> queries_compile(
                self.lang_config().queries, grammar_id(self.lang_config().language.grammar@))),
            grammar_known(self.lang_config().language.grammar@) && r is Err ==> query_failed(r->Err_0, file_path@),
            r matches Ok(g) ==> exists|f: Option<QueryRun>, c: Option<QueryRun>, i: Option<QueryRun>|
                runs_of(f, c, i, self.lang_config(), source@)
                && #[trigger] is_generic_graph(g, self.lang_config().language.name@, file_path@, f, c, i),
    {
        let language = match get_language(self.config.language.grammar.as_str()) {
            Ok(l) => l,
            Err(e) => {
                return Err(e);
            },
        };
        let fns = match &self.config.queries.functions {
            Some(q) => match run_query(q, &language, source, file_path, "name", Some("node")) {
                Ok(run) => Some(run),
                Err(e) => {
                    return Err(e);
                },
            },
            None => None,
        };
        let classes = match &self.config.queries.classes {
            Some(q) => match run_query(q, &language, source, file_path, "name", Some("node")) {
                Ok(run) => Some(run),
                Err(e) => {
                    return Err(e);
                },
            },
            None => None,
        };
        let imports = match &self.config.queries.imports {
            Some(q) => match run_query(q, &language, source, file_path, "path", None) {
                Ok(run) => Some(run),
                Err(e) => {
                    return Err(e);
                },
            },
            None => None,
        };
        let g = graph_from_runs(self.config.language.name.as_str(), file_path, &fns, &classes, &imports);
        let r: Result<CodeGraph, ParseError> = Ok(g);
        assert(runs_of(fns, classes, imports, self.lang_config(), source@));
        assert(is_generic_graph(r->Ok_0, self.config.language.name@, file_path@, fns, classes, imports));
        r
    }
}

/// Registers each of the parsers, in order, into the registry: each claims the extensions
/// of its description, after those registered before.
pub fn register_all(registry: &mut LanguageRegistry, parsers: Vec<GenericParser>)
    ensures
        final(registry).extension_lists() == old(registry).extension_lists()
            + parsers@.map_values(|p: GenericParser| p.extension_names()),
        forall|j: int| 0 <= j < old(registry).extension_lists().len() ==>
            #[trigger] final(registry).parser_at(j) == old(registry).parser_at(j),
{
    let ghost before = registry.extension_lists();
    let ghost all = parsers@;
    let ghost n = parsers@.len();
    let ghost claims = all.map_values(|p: GenericParser| p.extension_names());
    let mut parsers = parsers;
    assert(parsers@ =~= all.skip(0));
    assert(before + claims.take(0) =~= before);
    while parsers.len() > 0
        invariant
            parsers@.len() <= n,
            n == all.len(),
            claims == all.map_values(|p: GenericParser| p.extension_names()),
            parsers@ == all.skip(n - parsers@.len()),
            registry.extension_lists() == before + claims.take(n - parsers@.len()),
            before == old(registry).extension_lists(),
            forall|j: int| 0 <= j < before.len() ==> #[trigger] registry.parser_at(j) == old(registry).parser_at(j),
        decreases parsers@.len(),
    {
        let ghost k = n - parsers@.len();
        let p = parsers.remove(0);
        assert(p == all[k]);
        assert(parsers@ =~= all.skip(k + 1));
        let exts = p.supported_extensions();
        let list = owned_strings(exts);
        registry.register_claiming(Box::new(p), list);
        assert(claims.take(k + 1) =~= claims.take(k).push(claims[k]));
        assert(registry.extension_lists() =~= before + claims.take(k + 1));
    }
    assert(claims.take(n as int) =~= claims);
}

} // verus!
