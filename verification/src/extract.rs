//! What the language extractors share: ids, lines, file nodes and the text tests they use.

use vstd::prelude::*;
use crate::ir::{EdgeKind, EdgeV, GraphMeta, NodeKind, NodeV};
use crate::parser::last_index;
use crate::syntax::SyntaxNode;
use crate::text::{chars_of, copy_string, push_str, string_from_chars, to_owned_string};

verus! {

/// Whether the character is upper case, as `char::is_uppercase` says (the Unicode
/// `Uppercase` property).
pub uninterp spec fn upper_case(c: char) -> bool;

/// Whether the character is upper case (`char::is_uppercase`). Of the ASCII characters,
/// exactly the letters 'A' to 'Z' are.
#[verifier::external_body]
pub(crate) fn char_is_uppercase(c: char) -> (r: bool)
    ensures
        r == upper_case(c),
        ('A' <= c <= 'Z') ==> r,
        (c as u32) < 128 && !('A' <= c <= 'Z') ==> !r,
{
    c.is_uppercase()
}

/// Whether the text begins with an upper case character.
pub open spec fn starts_upper(s: Seq<char>) -> bool {
    s.len() > 0 && upper_case(s[0])
}

/// Whether the text begins with an upper case character.
pub fn starts_upper_exec(s: &String) -> (r: bool)
    ensures
        r == starts_upper(s@),
{
    let v = chars_of(s.as_str());
    if v.len() == 0 {
        false
    } else {
        char_is_uppercase(v[0])
    }
}

/// The id of a symbol of a file.
pub open spec fn symbol_id(path: Seq<char>, name: Seq<char>) -> Seq<char> {
    path + "::"@ + name
}

/// The id of a symbol of a file.
pub fn make_symbol_id(path: &String, name: &String) -> (r: String)
    ensures
        r@ == symbol_id(path@, name@),
{
    let mut r = copy_string(path);
    push_str(&mut r, "::");
    push_str(&mut r, name.as_str());
    r
}

/// The 1-based line of a 0-based row, where it fits in 32 bits.
pub open spec fn line_of(row: usize) -> Option<u32> {
    if row < u32::MAX { Some((row + 1) as u32) } else { None }
}

/// The 1-based line of a 0-based row, where it fits in 32 bits.
pub fn line_from_row(row: usize) -> (r: Option<u32>)
    ensures
        r == line_of(row),
{
    if row < 4294967295usize { Some((row + 1) as u32) } else { None }
}

/// The last segment of a path: what follows its last '/'.
pub open spec fn last_segment(p: Seq<char>) -> Seq<char> {
    p.skip(last_index(p, '/') + 1)
}

/// The last segment of a path: what follows its last '/'.
pub fn last_segment_exec(p: &String) -> (r: String)
    ensures
        r@ == last_segment(p@),
{
    let v = chars_of(p.as_str());
    let mut i: usize = v.len();
    let mut done = false;
    assert(v@.take(i as int) =~= v@);
    while i > 0 && !done
        invariant
            i <= v@.len(),
            last_index(v@, '/') == last_index(v@.take(i as int), '/'),
            done ==> i > 0 && v@[i - 1] == '/',
        decreases i, if done { 0int } else { 1int },
    {
        assert(v@.take(i as int).drop_last() =~= v@.take(i - 1));
        if v[i - 1] == '/' {
            done = true;
        } else {
            i = i - 1;
        }
    }
    proof {
        if done {
            assert(v@.take(i as int).last() == '/');
        }
    }
    let mut r: Vec<char> = Vec::new();
    let mut j: usize = i;
    while j < v.len()
        invariant
            i <= j <= v@.len(),
            r@ == v@.subrange(i as int, j as int),
        decreases v@.len() - j,
    {
        r.push(v[j]);
        assert(v@.subrange(i as int, j + 1) =~= v@.subrange(i as int, j as int).push(v@[j as int]));
        j = j + 1;
    }
    assert(v@.skip(i as int) =~= v@.subrange(i as int, v@.len() as int));
    string_from_chars(r.as_slice())
}

/// A node of a symbol.
pub open spec fn symbol_node(id: Seq<char>, label: Seq<char>, kind: NodeKind, file: Seq<char>, line: Option<u32>,
    is_public: bool, parent: Option<Seq<char>>) -> NodeV
{
    NodeV { id, label, kind, file_path: file, line, is_public, parent_id: parent }
}

/// An edge.
pub open spec fn edge_v(from: Seq<char>, to: Seq<char>, kind: EdgeKind) -> EdgeV {
    EdgeV { from, to, kind }
}

/// The metadata of a freshly extracted graph of the language.
pub open spec fn fresh_meta(m: GraphMeta, language: Seq<char>, nodes: nat, edges: nat) -> bool {
    &&& m.language@ == language
    &&& m.source_root@ == Seq::<char>::empty()
    &&& m.generated_at@ == Seq::<char>::empty()
    &&& m.node_count == nodes
    &&& m.edge_count == edges
}

/// Metadata of a freshly extracted graph, with no counts yet.
pub fn new_meta(language: &str) -> (m: GraphMeta)
    ensures
        fresh_meta(m, language@, 0, 0),
{
    GraphMeta {
        language: to_owned_string(language),
        source_root: String::new(),
        generated_at: String::new(),
        node_count: 0,
        edge_count: 0,
    }
}

/// Whether the node's text is the text.
pub fn text_is(n: &SyntaxNode, t: &str) -> (r: bool)
    ensures
        r == (n.text matches Some(x) && x@ == t@),
{
    match &n.text {
        Some(x) => {
            let tt = to_owned_string(t);
            x.eq(&tt)
        },
        None => false,
    }
}

} // verus!
