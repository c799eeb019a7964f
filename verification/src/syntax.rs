//! Syntax trees: what the extractors read of a tree-sitter parse, held as plain values.

use vstd::prelude::*;
use crate::text::{same_text, to_owned_string};
use crate::ir::opt_view;
use vstd::string::StringSliceAdditionalSpecFns;
use vstd::utf8::{encode_utf8, is_char_boundary};
use tree_sitter::Node as RawNode;

verus! {

#[verifier::external_type_specification]
#[verifier::external_body]
pub struct ExTsParser(tree_sitter::Parser);

#[verifier::external_type_specification]
#[verifier::external_body]
pub struct ExTsTree(tree_sitter::Tree);

#[verifier::external_type_specification]
#[verifier::external_body]
pub struct ExTsLanguage(tree_sitter::Language);

#[verifier::external_type_specification]
#[verifier::external_body]
pub struct ExTsNode<'a>(RawNode<'a>);

#[verifier::external_type_specification]
#[verifier::external_body]
pub struct ExTsQuery(tree_sitter::Query);

#[verifier::external_type_specification]
#[verifier::external_body]
pub struct ExTsQueryCursor(tree_sitter::QueryCursor);

/// Whether tree-sitter accepts a grammar generated at this language version: from the
/// oldest version it still reads to its own.
pub open spec fn version_accepted(v: usize) -> bool {
    13 <= v <= 14
}

/// A grammar the library bundles, with the number by which the library tells it apart
/// and the language version it was generated at. Its fields are private; only the
/// functions below that load a bundled grammar build one.
pub struct Grammar {
    language: tree_sitter::Language,
    id: u32,
    version: usize,
}

impl Grammar {
    /// The number by which the library tells the grammar apart.
    pub closed spec fn id(&self) -> u32 {
        self.id
    }

    /// The language version the grammar was generated at.
    pub closed spec fn version(&self) -> usize {
        self.version
    }
}

pub const PYTHON_GRAMMAR: u32 = 1;
pub const GO_GRAMMAR: u32 = 2;
pub const RUST_GRAMMAR: u32 = 3;
pub const JAVA_GRAMMAR: u32 = 4;
pub const KOTLIN_GRAMMAR: u32 = 5;
pub const TYPESCRIPT_GRAMMAR: u32 = 6;
pub const TSX_GRAMMAR: u32 = 7;
pub const RUBY_GRAMMAR: u32 = 8;
pub const SWIFT_GRAMMAR: u32 = 9;
pub const C_SHARP_GRAMMAR: u32 = 10;
pub const PHP_GRAMMAR: u32 = 11;
pub const DART_GRAMMAR: u32 = 12;
pub const LUA_GRAMMAR: u32 = 13;

/// The Python grammar (`tree_sitter_python::language`) with its language version
/// (`tree_sitter::Language::version`), which its generated parser sets to 14.
#[verifier::external_body]
pub(crate) fn python_grammar() -> (r: Grammar)
    ensures
        r.id() == PYTHON_GRAMMAR,
        r.version() == 14,
{
    let language = tree_sitter_python::language();
    Grammar { version: language.version(), language, id: PYTHON_GRAMMAR }
}

/// The Go grammar (`tree_sitter_go::language`) with its language version
/// (`tree_sitter::Language::version`), which its generated parser sets to 14.
#[verifier::external_body]
pub(crate) fn go_grammar() -> (r: Grammar)
    ensures
        r.id() == GO_GRAMMAR,
        r.version() == 14,
{
    let language = tree_sitter_go::language();
    Grammar { version: language.version(), language, id: GO_GRAMMAR }
}

/// The Rust grammar (`tree_sitter_rust::language`) with its language version
/// (`tree_sitter::Language::version`), which its generated parser sets to 14.
#[verifier::external_body]
pub(crate) fn rust_grammar() -> (r: Grammar)
    ensures
        r.id() == RUST_GRAMMAR,
        r.version() == 14,
{
    let language = tree_sitter_rust::language();
    Grammar { version: language.version(), language, id: RUST_GRAMMAR }
}

/// The Java grammar (`tree_sitter_java::language`) with its language version
/// (`tree_sitter::Language::version`), which its generated parser sets to 14.
#[verifier::external_body]
pub(crate) fn java_grammar() -> (r: Grammar)
    ensures
        r.id() == JAVA_GRAMMAR,
        r.version() == 14,
{
    let language = tree_sitter_java::language();
    Grammar { version: language.version(), language, id: JAVA_GRAMMAR }
}

/// The Kotlin grammar (`tree_sitter_kotlin::language`) with its language version
/// (`tree_sitter::Language::version`), which its generated parser sets to 14.
#[verifier::external_body]
pub(crate) fn kotlin_grammar() -> (r: Grammar)
    ensures
        r.id() == KOTLIN_GRAMMAR,
        r.version() == 14,
{
    let language = tree_sitter_kotlin::language();
    Grammar { version: language.version(), language, id: KOTLIN_GRAMMAR }
}

/// The TypeScript grammar (`tree_sitter_typescript::language_typescript`) with its
/// language version (`tree_sitter::Language::version`), which its generated parser sets
/// to 14.
#[verifier::external_body]
pub(crate) fn typescript_grammar() -> (r: Grammar)
    ensures
        r.id() == TYPESCRIPT_GRAMMAR,
        r.version() == 14,
{
    let language = tree_sitter_typescript::language_typescript();
    Grammar { version: language.version(), language, id: TYPESCRIPT_GRAMMAR }
}

/// The TSX grammar (`tree_sitter_typescript::language_tsx`) with its language version
/// (`tree_sitter::Language::version`), which its generated parser sets to 14.
#[verifier::external_body]
pub(crate) fn tsx_grammar() -> (r: Grammar)
    ensures
        r.id() == TSX_GRAMMAR,
        r.version() == 14,
{
    let language = tree_sitter_typescript::language_tsx();
    Grammar { version: language.version(), language, id: TSX_GRAMMAR }
}

/// The Ruby grammar (`tree_sitter_ruby::language`) with its language version
/// (`tree_sitter::Language::version`), which its generated parser sets to 14.
#[verifier::external_body]
pub(crate) fn ruby_grammar() -> (r: Grammar)
    ensures
        r.id() == RUBY_GRAMMAR,
        r.version() == 14,
{
    let language = tree_sitter_ruby::language();
    Grammar { version: language.version(), language, id: RUBY_GRAMMAR }
}

/// The Swift grammar (`tree_sitter_swift::language`) with its language version
/// (`tree_sitter::Language::version`), which its generated parser sets to 14.
#[verifier::external_body]
pub(crate) fn swift_grammar() -> (r: Grammar)
    ensures
        r.id() == SWIFT_GRAMMAR,
        r.version() == 14,
{
    let language = tree_sitter_swift::language();
    Grammar { version: language.version(), language, id: SWIFT_GRAMMAR }
}

/// The C# grammar (`tree_sitter_c_sharp::language`) with its language version
/// (`tree_sitter::Language::version`), which its generated parser sets to 14.
#[verifier::external_body]
pub(crate) fn c_sharp_grammar() -> (r: Grammar)
    ensures
        r.id() == C_SHARP_GRAMMAR,
        r.version() == 14,
{
    let language = tree_sitter_c_sharp::language();
    Grammar { version: language.version(), language, id: C_SHARP_GRAMMAR }
}

/// The PHP grammar (`tree_sitter_php::language_php`) with its language version
/// (`tree_sitter::Language::version`), which its generated parser sets to 14.
#[verifier::external_body]
pub(crate) fn php_grammar() -> (r: Grammar)
    ensures
        r.id() == PHP_GRAMMAR,
        r.version() == 14,
{
    let language = tree_sitter_php::language_php();
    Grammar { version: language.version(), language, id: PHP_GRAMMAR }
}

/// The Dart grammar (`tree_sitter_dart::language`) with its language version
/// (`tree_sitter::Language::version`), which its generated parser sets to 14.
#[verifier::external_body]
pub(crate) fn dart_grammar() -> (r: Grammar)
    ensures
        r.id() == DART_GRAMMAR,
        r.version() == 14,
{
    let language = tree_sitter_dart::language();
    Grammar { version: language.version(), language, id: DART_GRAMMAR }
}

/// The Lua grammar (`tree_sitter_lua::language`) with its language version
/// (`tree_sitter::Language::version`), which its generated parser sets to 14.
#[verifier::external_body]
pub(crate) fn lua_grammar() -> (r: Grammar)
    ensures
        r.id() == LUA_GRAMMAR,
        r.version() == 14,
{
    let language = tree_sitter_lua::language();
    Grammar { version: language.version(), language, id: LUA_GRAMMAR }
}

/// A fresh parser (`tree_sitter::Parser::new`); nothing is claimed of it.
#[verifier::external_body]
pub(crate) fn ts_new_parser() -> tree_sitter::Parser {
    tree_sitter::Parser::new()
}

/// A parser that has a grammar's language set. Its fields are private and only
/// `ts_set_language` builds one.
pub struct ReadyParser {
    parser: tree_sitter::Parser,
    grammar: u32,
}

impl ReadyParser {
    /// The grammar whose language the parser has.
    pub closed spec fn grammar(&self) -> u32 {
        self.grammar
    }
}

/// Sets the parser's language to the grammar's (`tree_sitter::Parser::set_language`),
/// which succeeds exactly where tree-sitter accepts the grammar's language version;
/// otherwise the error's text.
#[verifier::external_body]
pub(crate) fn ts_set_language(parser: tree_sitter::Parser, grammar: &Grammar) -> (r: Result<ReadyParser, String>)
    ensures
        r is Ok <==> version_accepted(grammar.version()),
        r matches Ok(p) ==> p.grammar() == grammar.id(),
{
    let mut parser = parser;
    match parser.set_language(&grammar.language) {
        Ok(()) => Ok(ReadyParser { parser, grammar: grammar.id }),
        Err(e) => Err(e.to_string()),
    }
}

/// A syntax tree held together with the text it was parsed from and its grammar. Its
/// fields are private and only `ts_parse` builds one, so the tree is always the parse of
/// that text with that grammar.
pub struct SourceTree {
    tree: tree_sitter::Tree,
    source: String,
    grammar: u32,
}

impl SourceTree {
    /// The text the tree was parsed from.
    pub closed spec fn text(&self) -> Seq<char> {
        self.source@
    }

    /// The grammar the tree was parsed with.
    pub closed spec fn grammar(&self) -> u32 {
        self.grammar
    }
}

/// Parses the text (`tree_sitter::Parser::parse` without an old tree) and keeps the tree
/// with a copy of the text. tree-sitter gives up only where the parser has no language, a
/// timeout expired or a cancellation flag was raised; a ready parser has a language and
/// none of these is ever set here, so there is always a tree.
#[verifier::external_body]
pub(crate) fn ts_parse(parser: &mut ReadyParser, source: &str) -> (r: Option<SourceTree>)
    ensures
        r is Some,
        r matches Some(t) ==> t.text() == source@ && t.grammar() == old(parser).grammar(),
        final(parser).grammar() == old(parser).grammar(),
{
    match parser.parser.parse(source, None) {
        Some(tree) => Some(SourceTree { tree, source: source.to_string(), grammar: parser.grammar }),
        None => None,
    }
}

/// The kind of the node at the path (each step a child's index) in the tree that the
/// grammar gives the text (tree-sitter's `Node::kind`).
pub uninterp spec fn tree_kind(grammar: u32, text: Seq<char>, path: Seq<usize>) -> Seq<char>;

/// The number of children of that node (tree-sitter's `Node::child_count`).
pub uninterp spec fn tree_child_count(grammar: u32, text: Seq<char>, path: Seq<usize>) -> usize;

/// Whether that node has a child at the index (tree-sitter's `Node::child`).
pub uninterp spec fn tree_has_child(grammar: u32, text: Seq<char>, path: Seq<usize>, i: usize) -> bool;

/// The field under which that node holds the child at the index
/// (tree-sitter's `Node::field_name_for_child`).
pub uninterp spec fn tree_field(grammar: u32, text: Seq<char>, path: Seq<usize>, i: usize) -> Option<Seq<char>>;

/// The byte where that node starts (tree-sitter's `Node::start_byte`).
pub uninterp spec fn tree_start_byte(grammar: u32, text: Seq<char>, path: Seq<usize>) -> usize;

/// The byte where that node ends (tree-sitter's `Node::end_byte`).
pub uninterp spec fn tree_end_byte(grammar: u32, text: Seq<char>, path: Seq<usize>) -> usize;

/// Whether that node's subtree holds a syntax error (tree-sitter's `Node::has_error`).
pub uninterp spec fn tree_has_error(grammar: u32, text: Seq<char>, path: Seq<usize>) -> bool;

/// The row where that node starts (tree-sitter's `Node::start_position`).
pub uninterp spec fn tree_start_row(grammar: u32, text: Seq<char>, path: Seq<usize>) -> usize;

/// The row where that node ends (tree-sitter's `Node::end_position`).
pub uninterp spec fn tree_end_row(grammar: u32, text: Seq<char>, path: Seq<usize>) -> usize;

/// The number of nodes in that node's subtree, itself included
/// (tree-sitter's `Node::descendant_count`).
pub uninterp spec fn tree_descendants(grammar: u32, text: Seq<char>, path: Seq<usize>) -> usize;

/// A node of a parsed tree, with the text and grammar of the parse and the path from the
/// root that leads to it. Its fields are private and only `ts_root` and `ts_child` build
/// one, so the node is always the one at that path.
pub struct TreeNode<'a> {
    node: RawNode<'a>,
    grammar: u32,
    source: &'a str,
    path: Vec<usize>,
}

impl<'a> TreeNode<'a> {
    pub closed spec fn grammar(&self) -> u32 {
        self.grammar
    }

    pub closed spec fn text(&self) -> Seq<char> {
        self.source@
    }

    pub closed spec fn path(&self) -> Seq<usize> {
        self.path@
    }

    /// The text the node's tree was parsed from.
    pub fn source(&self) -> (r: &'a str)
        ensures
            r@ == self.text(),
    {
        self.source
    }

    /// The path to the child at the index.
    fn child_path(&self, i: usize) -> (r: Vec<usize>)
        ensures
            r@ == self.path().push(i),
    {
        let mut r: Vec<usize> = Vec::new();
        let mut k: usize = 0;
        while k < self.path.len()
            invariant
                k <= self.path@.len(),
                r@ == self.path@.take(k as int),
            decreases self.path@.len() - k,
        {
            r.push(self.path[k]);
            k = k + 1;
            assert(r@ =~= self.path@.take(k as int));
        }
        r.push(i);
        assert(r@ =~= self.path@.push(i));
        r
    }
}

/// The root of the tree (`tree_sitter::Tree::root_node`): the node at the empty path.
#[verifier::external_body]
pub(crate) fn ts_root<'a>(tree: &'a SourceTree) -> (r: TreeNode<'a>)
    ensures
        r.grammar() == tree.grammar(),
        r.text() == tree.text(),
        r.path() == Seq::<usize>::empty(),
{
    TreeNode { node: tree.tree.root_node(), grammar: tree.grammar, source: tree.source.as_str(), path: Vec::new() }
}

/// The kind of the node (`tree_sitter::Node::kind`).
#[verifier::external_body]
pub(crate) fn ts_kind(n: &TreeNode) -> (r: String)
    ensures
        r@ == tree_kind(n.grammar(), n.text(), n.path()),
{
    n.node.kind().to_string()
}

/// The number of children (`tree_sitter::Node::child_count`), which tree-sitter keeps
/// in 32 bits.
#[verifier::external_body]
pub(crate) fn ts_child_count(n: &TreeNode) -> (r: usize)
    ensures
        r == tree_child_count(n.grammar(), n.text(), n.path()),
        r <= u32::MAX,
{
    n.node.child_count()
}

/// The child at the index (`tree_sitter::Node::child`), given the path that leads to it.
#[verifier::external_body]
pub(crate) fn ts_child<'a>(n: &TreeNode<'a>, i: usize, path: Vec<usize>) -> (r: Option<TreeNode<'a>>)
    requires
        i <= u32::MAX,
        path@ == n.path().push(i),
    ensures
        r is Some <==> tree_has_child(n.grammar(), n.text(), n.path(), i),
        r matches Some(c) ==> c.grammar() == n.grammar() && c.text() == n.text() && c.path() == path@,
{
    match n.node.child(i) {
        Some(c) => Some(TreeNode { node: c, grammar: n.grammar, source: n.source, path }),
        None => None,
    }
}

/// The field name under which the node holds the child at the index
/// (`tree_sitter::Node::field_name_for_child`).
#[verifier::external_body]
pub(crate) fn ts_field_name(n: &TreeNode, i: usize) -> (r: Option<String>)
    requires
        i <= u32::MAX,
    ensures
        opt_view(r) == tree_field(n.grammar(), n.text(), n.path(), i),
{
    n.node.field_name_for_child(i as u32).map(|f| f.to_string())
}

/// The byte where the node starts (`tree_sitter::Node::start_byte`).
#[verifier::external_body]
pub(crate) fn ts_start_byte(n: &TreeNode) -> (r: usize)
    ensures
        r == tree_start_byte(n.grammar(), n.text(), n.path()),
{
    n.node.start_byte()
}

/// The byte where the node ends (`tree_sitter::Node::end_byte`).
#[verifier::external_body]
pub(crate) fn ts_end_byte(n: &TreeNode) -> (r: usize)
    ensures
        r == tree_end_byte(n.grammar(), n.text(), n.path()),
{
    n.node.end_byte()
}

/// Whether the text holds, between the byte positions, exactly the characters of the
/// piece: there is a piece where the positions are in order, within the text and on
/// character boundaries, and its UTF-8 bytes are those between the positions.
pub open spec fn is_span_text(piece: Option<String>, text: Seq<char>, start: usize, end: usize) -> bool {
    let bytes = encode_utf8(text);
    &&& (piece is Some <==> (start <= end <= bytes.len() && is_char_boundary(bytes, start as int)
        && is_char_boundary(bytes, end as int)))
    &&& (piece matches Some(t) ==> encode_utf8(t@) == bytes.subrange(start as int, end as int))
}

/// The part of the text between two byte positions (`str::get`).
#[verifier::external_body]
pub(crate) fn str_get(s: &str, start: usize, end: usize) -> (r: Option<String>)
    ensures
        is_span_text(r, s@, start, end),
{
    match s.get(start..end) {
        Some(t) => Some(t.to_string()),
        None => None,
    }
}

/// The text of a node, as tree-sitter's `utf8_text` gives it: the source between the
/// node's bytes, where that is whole characters.
pub(crate) fn node_text(n: &TreeNode) -> (r: Option<String>)
    ensures
        is_span_text(r, n.text(), tree_start_byte(n.grammar(), n.text(), n.path()),
            tree_end_byte(n.grammar(), n.text(), n.path())),
{
    let start = ts_start_byte(n);
    let end = ts_end_byte(n);
    str_get(n.source(), start, end)
}

/// Whether the subtree holds a syntax error (`tree_sitter::Node::has_error`).
#[verifier::external_body]
pub(crate) fn ts_has_error(n: &TreeNode) -> (r: bool)
    ensures
        r == tree_has_error(n.grammar(), n.text(), n.path()),
{
    n.node.has_error()
}

/// The row where the node starts (`tree_sitter::Node::start_position`).
#[verifier::external_body]
pub(crate) fn ts_start_row(n: &TreeNode) -> (r: usize)
    ensures
        r == tree_start_row(n.grammar(), n.text(), n.path()),
{
    n.node.start_position().row
}

/// The row where the node ends (`tree_sitter::Node::end_position`).
#[verifier::external_body]
pub(crate) fn ts_end_row(n: &TreeNode) -> (r: usize)
    ensures
        r == tree_end_row(n.grammar(), n.text(), n.path()),
{
    n.node.end_position().row
}

/// The number of nodes in the subtree, the node included
/// (`tree_sitter::Node::descendant_count`).
#[verifier::external_body]
pub(crate) fn ts_descendant_count(n: &TreeNode) -> (r: usize)
    ensures
        r == tree_descendants(n.grammar(), n.text(), n.path()),
{
    n.node.descendant_count()
}

/// A compiled tree-sitter query, with its grammar and its text. Its fields are private and
/// only `ts_query_new` builds one.
pub struct TsQuery {
    query: tree_sitter::Query,
    grammar: u32,
    text: String,
}

impl TsQuery {
    /// The grammar the query was compiled for.
    pub closed spec fn grammar(&self) -> u32 {
        self.grammar
    }

    /// The text the query was compiled from.
    pub closed spec fn text(&self) -> Seq<char> {
        self.text@
    }
}

/// Whether tree-sitter compiles the query text for the grammar (`tree_sitter::Query::new`).
pub uninterp spec fn query_compiles(grammar: u32, query: Seq<char>) -> bool;

/// Compiles the query text for the grammar (`tree_sitter::Query::new`); where it is
/// refused, the error's text.
#[verifier::external_body]
pub(crate) fn ts_query_new(grammar: &Grammar, text: &str) -> (r: Result<TsQuery, String>)
    ensures
        r is Ok <==> query_compiles(grammar.id(), text@),
        r matches Ok(q) ==> q.grammar() == grammar.id() && q.text() == text@,
{
    match tree_sitter::Query::new(&grammar.language, text) {
        Ok(query) => Ok(TsQuery { query, grammar: grammar.id, text: text.to_string() }),
        Err(e) => Err(e.to_string()),
    }
}

/// The index of the capture of that name in the query compiled from the text for the
/// grammar (`tree_sitter::Query::capture_index_for_name`).
pub uninterp spec fn query_capture_index(grammar: u32, query: Seq<char>, name: Seq<char>) -> Option<u32>;

/// The index of the query's capture of that name
/// (`tree_sitter::Query::capture_index_for_name`).
#[verifier::external_body]
pub(crate) fn ts_capture_index(query: &TsQuery, name: &str) -> (r: Option<u32>)
    ensures
        r == query_capture_index(query.grammar(), query.text(), name@),
{
    query.query.capture_index_for_name(name)
}

/// The matches of the query over the whole tree that the grammar gives the text, in the
/// order tree-sitter finds them, each as its captures in order: the capture's index, the
/// bytes where the captured node starts and ends, and the row where it starts
/// (`tree_sitter::QueryCursor::matches` with a fresh cursor).
pub uninterp spec fn query_matches(grammar: u32, query: Seq<char>, text: Seq<char>)
    -> Seq<Seq<(u32, usize, usize, usize)>>;

/// Runs the query over the tree with a fresh cursor (`tree_sitter::QueryCursor::new` and
/// `tree_sitter::QueryCursor::matches`), each capture given by its index and its node's
/// start byte, end byte and start row.
#[verifier::external_body]
pub(crate) fn ts_query_matches(query: &TsQuery, tree: &SourceTree) -> (r: Vec<Vec<(u32, usize, usize, usize)>>)
    requires
        query.grammar() == tree.grammar(),
    ensures
        r@.len() == query_matches(query.grammar(), query.text(), tree.text()).len(),
        forall|i: int| 0 <= i < r@.len() ==> #[trigger] r@[i]@ == query_matches(query.grammar(), query.text(), tree.text())[i],
{
    let mut cursor = tree_sitter::QueryCursor::new();
    cursor.matches(&query.query, tree.tree.root_node(), tree.source.as_bytes())
        .map(|m| m.captures.iter().map(|c| (c.index, c.node.start_byte(), c.node.end_byte(), c.node.start_position().row)).collect())
        .collect()
}

/// A node of a syntax tree: its kind, the field under which its parent holds it, its
/// text, the rows where it starts and ends, whether its subtree holds a syntax error, and
/// its children in order.
#[derive(Debug)]
pub struct SyntaxNode {
    pub kind: String,
    pub field: Option<String>,
    pub text: Option<String>,
    pub row: usize,
    pub end_row: usize,
    pub has_error: bool,
    pub children: Vec<SyntaxNode>,
}

/// Whether `t` is the node at the path of the tree that the grammar gives the text, held
/// under the field, with its subtree copied down to `depth` levels: its kind, text, rows
/// and error flag are tree-sitter's, and its children are copies of the node's children,
/// in order.
pub open spec fn is_tree_of(t: SyntaxNode, grammar: u32, text: Seq<char>, path: Seq<usize>,
    field: Option<Seq<char>>, depth: nat) -> bool
    decreases depth, 1nat, 0nat,
{
    &&& t.kind@ == tree_kind(grammar, text, path)
    &&& opt_view(t.field) == field
    &&& is_span_text(t.text, text, tree_start_byte(grammar, text, path), tree_end_byte(grammar, text, path))
    &&& t.row == tree_start_row(grammar, text, path)
    &&& t.end_row == tree_end_row(grammar, text, path)
    &&& t.has_error == tree_has_error(grammar, text, path)
    &&& if depth == 0 {
        t.children@.len() == 0
    } else {
        are_children_of(t.children@, grammar, text, path, depth, tree_child_count(grammar, text, path) as nat)
    }
}

/// Whether `ts` are copies, down to `depth - 1` levels, of the children that the node at
/// the path has among its first `k` indices, in order.
pub open spec fn are_children_of(ts: Seq<SyntaxNode>, grammar: u32, text: Seq<char>, path: Seq<usize>,
    depth: nat, k: nat) -> bool
    decreases depth, 0nat, k,
{
    if depth == 0 {
        false
    } else if k == 0 {
        ts.len() == 0
    } else if tree_has_child(grammar, text, path, (k - 1) as usize) {
        &&& ts.len() > 0
        &&& are_children_of(ts.drop_last(), grammar, text, path, depth, (k - 1) as nat)
        &&& is_tree_of(ts.last(), grammar, text, path.push((k - 1) as usize),
            tree_field(grammar, text, path, (k - 1) as usize), (depth - 1) as nat)
    } else {
        are_children_of(ts, grammar, text, path, depth, (k - 1) as nat)
    }
}

/// Whether `t` is the whole tree that the grammar gives the text: the root, under no
/// field, copied as deep as the tree has nodes.
pub open spec fn tree_of_source(t: SyntaxNode, grammar: u32, text: Seq<char>) -> bool {
    is_tree_of(t, grammar, text, Seq::empty(), None, tree_descendants(grammar, text, Seq::empty()) as nat)
}

/// Copies the tree-sitter node and its subtree, down to `depth` levels.
fn to_syntax(node: &TreeNode, field: Option<String>, depth: usize) -> (r: SyntaxNode)
    ensures
        is_tree_of(r, node.grammar(), node.text(), node.path(), opt_view(field), depth as nat),
    decreases depth,
{
    let kind = ts_kind(node);
    let text = node_text(node);
    let row = ts_start_row(node);
    let end_row = ts_end_row(node);
    let has_error = ts_has_error(node);
    let ghost g = node.grammar();
    let ghost src = node.text();
    let ghost path = node.path();
    let mut children: Vec<SyntaxNode> = Vec::new();
    if depth > 0 {
        let count = ts_child_count(node);
        let mut i: usize = 0;
        while i < count
            invariant
                count == tree_child_count(g, src, path),
                count <= u32::MAX,
                i <= count,
                depth > 0,
                g == node.grammar(),
                src == node.text(),
                path == node.path(),
                are_children_of(children@, g, src, path, depth as nat, i as nat),
            decreases count - i,
        {
            let ghost before = children@;
            let p = node.child_path(i);
            match ts_child(node, i, p) {
                Some(c) => {
                    let f = ts_field_name(node, i);
                    let t = to_syntax(&c, f, depth - 1);
                    children.push(t);
                    assert(children@.drop_last() =~= before);
                },
                None => {},
            }
            i = i + 1;
        }
    }
    SyntaxNode { kind, field, text, row, end_row, has_error, children }
}

/// Parses the source with the grammar and copies the whole tree; where tree-sitter does
/// not accept the grammar's language version, the reason.
pub fn parse_syntax(grammar: &Grammar, source: &str) -> (r: Result<SyntaxNode, String>)
    ensures
        r is Ok <==> version_accepted(grammar.version()),
        r matches Ok(t) ==> tree_of_source(t, grammar.id(), source@),
{
    let mut parser = match ts_set_language(ts_new_parser(), grammar) {
        Ok(p) => p,
        Err(why) => {
            return Err(why);
        },
    };
    match ts_parse(&mut parser, source) {
        Some(tree) => {
            let root = ts_root(&tree);
            let depth = ts_descendant_count(&root);
            Ok(to_syntax(&root, None, depth))
        },
        None => Err(String::new()),
    }
}

/// Parses the source with the bundled grammar of that number (one of the `*_GRAMMAR`
/// numbers) and copies the whole tree; nothing for another number.
pub fn parse_bundled(grammar: u32, source: &str) -> (r: Option<SyntaxNode>)
    ensures
        r is Some <==> PYTHON_GRAMMAR <= grammar <= LUA_GRAMMAR,
        r matches Some(t) ==> tree_of_source(t, grammar, source@),
{
    let g = if grammar == PYTHON_GRAMMAR {
        python_grammar()
    } else if grammar == GO_GRAMMAR {
        go_grammar()
    } else if grammar == RUST_GRAMMAR {
        rust_grammar()
    } else if grammar == JAVA_GRAMMAR {
        java_grammar()
    } else if grammar == KOTLIN_GRAMMAR {
        kotlin_grammar()
    } else if grammar == TYPESCRIPT_GRAMMAR {
        typescript_grammar()
    } else if grammar == TSX_GRAMMAR {
        tsx_grammar()
    } else if grammar == RUBY_GRAMMAR {
        ruby_grammar()
    } else if grammar == SWIFT_GRAMMAR {
        swift_grammar()
    } else if grammar == C_SHARP_GRAMMAR {
        c_sharp_grammar()
    } else if grammar == PHP_GRAMMAR {
        php_grammar()
    } else if grammar == DART_GRAMMAR {
        dart_grammar()
    } else if grammar == LUA_GRAMMAR {
        lua_grammar()
    } else {
        return None;
    };
    match parse_syntax(&g, source) {
        Ok(t) => Some(t),
        Err(_) => None,
    }
}

/// Whether the node is held under the field.
pub open spec fn has_field(c: SyntaxNode, name: Seq<char>) -> bool {
    c.field matches Some(f) && f@ == name
}

/// The position of the first child held under the field, if any.
pub open spec fn field_index(children: Seq<SyntaxNode>, name: Seq<char>) -> Option<int>
    decreases children.len(),
{
    if children.len() == 0 {
        None
    } else {
        match field_index(children.drop_last(), name) {
            Some(i) => Some(i),
            None => if has_field(children.last(), name) { Some(children.len() - 1) } else { None },
        }
    }
}

/// The first child held under the field, if any.
pub open spec fn field_child(n: SyntaxNode, name: Seq<char>) -> Option<SyntaxNode> {
    match field_index(n.children@, name) {
        Some(i) => Some(n.children@[i]),
        None => None,
    }
}

/// The text of a node, or nothing.
pub open spec fn text_of(n: SyntaxNode) -> Seq<char> {
    match n.text {
        Some(t) => t@,
        None => Seq::empty(),
    }
}

pub proof fn lemma_field_index(children: Seq<SyntaxNode>, name: Seq<char>)
    ensures
        field_index(children, name) matches Some(i) ==> (0 <= i < children.len()
            && has_field(children[i], name)
            && forall|j: int| 0 <= j < i ==> !has_field(#[trigger] children[j], name)),
        field_index(children, name) is None ==>
            forall|j: int| 0 <= j < children.len() ==> !has_field(#[trigger] children[j], name),
    decreases children.len(),
{
    if children.len() > 0 {
        lemma_field_index(children.drop_last(), name);
        assert forall|j: int| 0 <= j < children.len() - 1 implies children[j] == children.drop_last()[j] by {}
    }
}

/// The first child of the node held under the field, if any.
pub fn child_by_field<'a>(n: &'a SyntaxNode, name: &str) -> (r: Option<&'a SyntaxNode>)
    ensures
        match r {
            Some(c) => field_child(*n, name@) == Some(*c),
            None => field_child(*n, name@) is None,
        },
{
    let target = to_owned_string(name);
    let mut i: usize = 0;
    while i < n.children.len()
        invariant
            i <= n.children@.len(),
            target@ == name@,
            forall|j: int| 0 <= j < i ==> !has_field(#[trigger] n.children@[j], name@),
        decreases n.children@.len() - i,
    {
        let c = &n.children[i];
        let hit = match &c.field {
            Some(f) => same_text(f, &target),
            None => false,
        };
        if hit {
            proof {
                lemma_field_index(n.children@, name@);
                match field_index(n.children@, name@) {
                    Some(k0) => {
                        if k0 < i {
                            assert(!has_field(n.children@[k0], name@));
                        }
                    },
                    None => {
                        assert(!has_field(n.children@[i as int], name@));
                    },
                }
            }
            return Some(c);
        }
        i = i + 1;
    }
    proof {
        lemma_field_index(n.children@, name@);
    }
    None
}

/// Whether the node's kind is the text.
pub fn kind_is(n: &SyntaxNode, k: &str) -> (r: bool)
    ensures
        r == (n.kind@ == k@),
{
    let t = to_owned_string(k);
    same_text(&n.kind, &t)
}

/// The position of the first child under the field, if any.
pub open spec fn field_at(n: SyntaxNode, name: Seq<char>) -> Option<int> {
    match field_index(n.children@, name) {
        Some(i) => if 0 <= i < n.children@.len() { Some(i) } else { None },
        None => None,
    }
}

/// The position of the first child under the field, if any.
pub fn field_pos(n: &SyntaxNode, name: &str) -> (r: Option<usize>)
    ensures
        match r {
            Some(i) => field_at(*n, name@) == Some(i as int),
            None => field_at(*n, name@) is None,
        },
{
    let target = to_owned_string(name);
    let mut i: usize = 0;
    proof {
        lemma_field_index(n.children@, name@);
    }
    while i < n.children.len()
        invariant
            i <= n.children@.len(),
            target@ == name@,
            forall|j: int| 0 <= j < i ==> !has_field(#[trigger] n.children@[j], name@),
            field_index(n.children@, name@) matches Some(k) ==> (0 <= k < n.children@.len()
                && has_field(n.children@[k], name@)
                && forall|j: int| 0 <= j < k ==> !has_field(#[trigger] n.children@[j], name@)),
            field_index(n.children@, name@) is None ==>
                forall|j: int| 0 <= j < n.children@.len() ==> !has_field(#[trigger] n.children@[j], name@),
        decreases n.children@.len() - i,
    {
        let hit = match &n.children[i].field {
            Some(f) => same_text(f, &target),
            None => false,
        };
        if hit {
            proof {
                match field_index(n.children@, name@) {
                    Some(k0) => {
                        if k0 < i {
                            assert(!has_field(n.children@[k0], name@));
                        } else if k0 > i {
                            assert(!has_field(n.children@[i as int], name@));
                        }
                    },
                    None => {
                        assert(!has_field(n.children@[i as int], name@));
                    },
                }
            }
            return Some(i);
        }
        i = i + 1;
    }
    None
}

} // verus!
