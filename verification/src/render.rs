//! Rendering graphs and graph differences as Mermaid, DOT and plain text.

use vstd::prelude::*;
use crate::diff::{GraphDiff, contains_node_id, has_node_id};
use crate::ir::{CodeGraph, Edge, EdgeKind, EdgeV, Node, NodeKind, NodeV, edges_v, nodes_v};
use crate::text::{chars_of, push_decimal, push_str, string_from_chars, to_owned_string, decimal};

verus! {

/// The output formats of the command line.
#[derive(Debug, Clone, Copy, PartialEq, Eq, Structural)]
pub enum OutputFormat {
    Mermaid,
    Json,
    Dot,
}

/// Whether `c` is `t`, or its upper case where `t` is a lower case ASCII letter.
pub open spec fn char_ignoring_case(c: char, t: char) -> bool {
    c == t || ('a' <= t <= 'z' && c as u32 + 32 == t as u32)
}

/// Whether `s` spells the lower case word `w`, ignoring ASCII case.
pub open spec fn spells(s: Seq<char>, w: Seq<char>) -> bool {
    s.len() == w.len() && forall|i: int| 0 <= i < s.len() ==> #[trigger] char_ignoring_case(s[i], w[i])
}

fn spells_exec(s: &Vec<char>, w: &str) -> (r: bool)
    ensures
        r == spells(s@, w@),
{
    let wv = chars_of(w);
    if s.len() != wv.len() {
        return false;
    }
    let mut i: usize = 0;
    while i < s.len()
        invariant
            s@.len() == wv@.len(),
            wv@ == w@,
            i <= s@.len(),
            forall|j: int| 0 <= j < i ==> #[trigger] char_ignoring_case(s@[j], w@[j]),
        decreases s@.len() - i,
    {
        let c = s[i];
        let t = wv[i];
        let ok = c == t || ('a' <= t && t <= 'z' && (c as u32) == (t as u32) - 32);
        if !ok {
            assert(!char_ignoring_case(s@[i as int], w@[i as int]));
            return false;
        }
        i = i + 1;
    }
    true
}

impl OutputFormat {
    /// Parses an output format name, ignoring ASCII case.
    pub fn parse_format(s: &str) -> (r: Result<OutputFormat, String>)
        ensures
            r == Ok::<OutputFormat, String>(OutputFormat::Mermaid) <==> spells(s@, "mermaid"@),
            r == Ok::<OutputFormat, String>(OutputFormat::Json) <==> spells(s@, "json"@),
            r == Ok::<OutputFormat, String>(OutputFormat::Dot) <==> spells(s@, "dot"@),
            r matches Err(m) ==> m@ == "Invalid output format: "@ + s@,
    {
        let v = chars_of(s);
        proof {
            reveal_strlit("mermaid");
            reveal_strlit("json");
            reveal_strlit("dot");
        }
        if spells_exec(&v, "mermaid") {
            assert(!spells(s@, "json"@) && !spells(s@, "dot"@));
            Ok(OutputFormat::Mermaid)
        } else if spells_exec(&v, "json") {
            assert(!spells(s@, "dot"@));
            Ok(OutputFormat::Json)
        } else if spells_exec(&v, "dot") {
            Ok(OutputFormat::Dot)
        } else {
            let mut m = to_owned_string("Invalid output format: ");
            push_str(&mut m, s);
            Err(m)
        }
    }
}

impl core::str::FromStr for OutputFormat {
    type Err = String;

    fn from_str(s: &str) -> (r: Result<OutputFormat, String>)
        ensures
            r == Ok::<OutputFormat, String>(OutputFormat::Mermaid) <==> spells(s@, "mermaid"@),
            r == Ok::<OutputFormat, String>(OutputFormat::Json) <==> spells(s@, "json"@),
            r == Ok::<OutputFormat, String>(OutputFormat::Dot) <==> spells(s@, "dot"@),
            r matches Err(m) ==> m@ == "Invalid output format: "@ + s@,
    {
        OutputFormat::parse_format(s)
    }
}

/// The kind of Mermaid diagram to render.
#[derive(Debug, Clone, Copy, PartialEq, Eq, Structural)]
pub enum DiagramKind {
    /// A 'graph TD' of the 'Imports' edges between 'File' and 'Module' nodes.
    ModuleGraph,
    /// A 'flowchart TD' of the 'Calls' edges between 'Function' nodes.
    CallGraph,
    /// A 'classDiagram' of the 'Inherits' and 'Implements' edges.
    ClassDiagram,
}

/// A character of an id with '/' and '.' turned into '_'.
pub open spec fn slash_dot(c: char) -> char {
    if c == '/' || c == '.' { '_' } else { c }
}

/// A character of an id with '-' turned into '_'.
pub open spec fn dash(c: char) -> char {
    if c == '-' { '_' } else { c }
}

/// The text with each "::", read from the left, turned into '_'.
pub open spec fn collapse_colons(s: Seq<char>) -> Seq<char>
    decreases s.len(),
{
    if s.len() == 0 {
        s
    } else if s.len() >= 2 && s[0] == ':' && s[1] == ':' {
        seq!['_'] + collapse_colons(s.skip(2))
    } else {
        seq![s[0]] + collapse_colons(s.skip(1))
    }
}

/// An id as Mermaid writes it.
pub open spec fn mermaid_id(s: Seq<char>) -> Seq<char> {
    collapse_colons(s.map_values(|c: char| slash_dot(c)))
}

/// An id as DOT writes it.
pub open spec fn dot_id(s: Seq<char>) -> Seq<char> {
    mermaid_id(s).map_values(|c: char| dash(c))
}

fn map_slash_dot(v: &Vec<char>, dashes: bool) -> (r: Vec<char>)
    ensures
        !dashes ==> r@ == v@.map_values(|c: char| slash_dot(c)),
        dashes ==> r@ == v@.map_values(|c: char| dash(c)),
{
    let mut r: Vec<char> = Vec::new();
    let mut i: usize = 0;
    while i < v.len()
        invariant
            i <= v@.len(),
            !dashes ==> r@ == v@.take(i as int).map_values(|c: char| slash_dot(c)),
            dashes ==> r@ == v@.take(i as int).map_values(|c: char| dash(c)),
        decreases v@.len() - i,
    {
        let c = v[i];
        if dashes {
            if c == '-' { r.push('_'); } else { r.push(c); }
        } else {
            if c == '/' || c == '.' { r.push('_'); } else { r.push(c); }
        }
        assert(v@.take(i + 1) =~= v@.take(i as int).push(c));
        i = i + 1;
        assert(!dashes ==> r@ =~= v@.take(i as int).map_values(|c: char| slash_dot(c)));
        assert(dashes ==> r@ =~= v@.take(i as int).map_values(|c: char| dash(c)));
    }
    assert(v@.take(v@.len() as int) =~= v@);
    r
}

fn collapse_colons_exec(v: &Vec<char>) -> (r: Vec<char>)
    ensures
        r@ == collapse_colons(v@),
{
    let mut r: Vec<char> = Vec::new();
    let mut i: usize = 0;
    assert(v@.skip(0) =~= v@);
    while i < v.len()
        invariant
            i <= v@.len(),
            collapse_colons(v@) == r@ + collapse_colons(v@.skip(i as int)),
        decreases v@.len() - i,
    {
        let ghost rest = v@.skip(i as int);
        if i + 1 < v.len() && v[i] == ':' && v[i + 1] == ':' {
            r.push('_');
            assert(rest.skip(2) =~= v@.skip(i + 2));
            i = i + 2;
        } else {
            r.push(v[i]);
            assert(rest.skip(1) =~= v@.skip(i + 1));
            i = i + 1;
        }
        assert(collapse_colons(v@) =~= r@ + collapse_colons(v@.skip(i as int)));
    }
    assert(v@.skip(i as int).len() == 0);
    r
}

/// The id as Mermaid writes it.
pub fn sanitize_mermaid(id: &str) -> (r: String)
    ensures
        r@ == mermaid_id(id@),
{
    let v = chars_of(id);
    let a = map_slash_dot(&v, false);
    let b = collapse_colons_exec(&a);
    string_from_chars(b.as_slice())
}

/// The id as DOT writes it.
pub fn sanitize_id(id: &str) -> (r: String)
    ensures
        r@ == dot_id(id@),
{
    let v = chars_of(id);
    let a = map_slash_dot(&v, false);
    let b = collapse_colons_exec(&a);
    let c = map_slash_dot(&b, true);
    string_from_chars(c.as_slice())
}

/// The first line of each kind of diagram.
pub open spec fn header(kind: DiagramKind) -> Seq<char> {
    match kind {
        DiagramKind::ModuleGraph => "graph TD\n"@,
        DiagramKind::CallGraph => "flowchart TD\n"@,
        DiagramKind::ClassDiagram => "classDiagram\n"@,
    }
}

fn push_header(out: &mut String, kind: DiagramKind)
    ensures
        final(out)@ == old(out)@ + header(kind),
{
    match kind {
        DiagramKind::ModuleGraph => push_str(out, "graph TD\n"),
        DiagramKind::CallGraph => push_str(out, "flowchart TD\n"),
        DiagramKind::ClassDiagram => push_str(out, "classDiagram\n"),
    }
}

/// Whether a node of this kind is drawn in the diagram.
pub open spec fn node_shown(kind: DiagramKind, k: NodeKind) -> bool {
    match kind {
        DiagramKind::ModuleGraph => k == NodeKind::File || k == NodeKind::Module,
        DiagramKind::CallGraph => k is Function,
        DiagramKind::ClassDiagram => k == NodeKind::Class || k == NodeKind::Interface,
    }
}

/// Whether an edge of this kind is drawn in the diagram.
pub open spec fn edge_shown(kind: DiagramKind, k: EdgeKind) -> bool {
    match kind {
        DiagramKind::ModuleGraph => k == EdgeKind::Imports,
        DiagramKind::CallGraph => k == EdgeKind::Calls,
        DiagramKind::ClassDiagram => k == EdgeKind::Inherits || k == EdgeKind::Implements,
    }
}

fn node_shown_exec(kind: DiagramKind, k: NodeKind) -> (r: bool)
    ensures
        r == node_shown(kind, k),
{
    match kind {
        DiagramKind::ModuleGraph => match k {
            NodeKind::File | NodeKind::Module => true,
            _ => false,
        },
        DiagramKind::CallGraph => match k {
            NodeKind::Function { .. } => true,
            _ => false,
        },
        DiagramKind::ClassDiagram => match k {
            NodeKind::Class | NodeKind::Interface => true,
            _ => false,
        },
    }
}

fn edge_shown_exec(kind: DiagramKind, k: EdgeKind) -> (r: bool)
    ensures
        r == edge_shown(kind, k),
{
    match kind {
        DiagramKind::ModuleGraph => k == EdgeKind::Imports,
        DiagramKind::CallGraph => k == EdgeKind::Calls,
        DiagramKind::ClassDiagram => k == EdgeKind::Inherits || k == EdgeKind::Implements,
    }
}

/// The nodes drawn in a diagram of this kind.
pub open spec fn shown_filter(kind: DiagramKind) -> spec_fn(NodeV) -> bool {
    |n: NodeV| node_shown(kind, n.kind)
}

/// The most nodes a diagram draws.
pub const MAX_NODES: usize = 50;

/// The drawn nodes, the first fifty of them.
pub open spec fn shown_nodes(nodes: Seq<NodeV>, kind: DiagramKind) -> Seq<NodeV> {
    let f = nodes.filter(shown_filter(kind));
    if f.len() > 50 { f.take(50) } else { f }
}

/// The line of an edge in a diagram: `tag` marks the lines of a difference diagram.
pub open spec fn edge_line(kind: DiagramKind, e: EdgeV, tag: Seq<char>) -> Seq<char> {
    let from = mermaid_id(e.from);
    let to = mermaid_id(e.to);
    let suffix = if tag.len() == 0 { seq![] } else { ":::"@ + tag };
    let arrow = if tag.len() == 0 { " --> "@ } else { " -->|"@ + tag + "| "@ };
    match kind {
        DiagramKind::ClassDiagram => {
            if e.kind == EdgeKind::Inherits {
                "    "@ + to + " <|-- "@ + from + suffix + "\n"@
            } else if e.kind == EdgeKind::Implements {
                "    "@ + to + " <|.. "@ + from + suffix + "\n"@
            } else {
                seq![]
            }
        },
        _ => "    "@ + from + arrow + to + suffix + "\n"@,
    }
}

fn push_edge_line(out: &mut String, kind: DiagramKind, e: &Edge, tag: &str)
    ensures
        final(out)@ == old(out)@ + edge_line(kind, e@, tag@),
{
    let from = sanitize_mermaid(e.from_id.as_str());
    let to = sanitize_mermaid(e.to_id.as_str());
    let tv = chars_of(tag);
    let ghost o = out@;
    match kind {
        DiagramKind::ClassDiagram => {
            match e.kind {
                EdgeKind::Inherits => {
                    push_str(out, "    ");
                    push_str(out, to.as_str());
                    push_str(out, " <|-- ");
                    push_str(out, from.as_str());
                },
                EdgeKind::Implements => {
                    push_str(out, "    ");
                    push_str(out, to.as_str());
                    push_str(out, " <|.. ");
                    push_str(out, from.as_str());
                },
                _ => {
                    assert(out@ =~= o + edge_line(kind, e@, tag@));
                    return;
                },
            }
        },
        _ => {
            push_str(out, "    ");
            push_str(out, from.as_str());
            if tv.len() == 0 {
                push_str(out, " --> ");
            } else {
                push_str(out, " -->|");
                push_str(out, tag);
                push_str(out, "| ");
            }
            push_str(out, to.as_str());
        },
    }
    if tv.len() > 0 {
        push_str(out, ":::");
        push_str(out, tag);
    }
    push_str(out, "\n");
    assert(out@ =~= o + edge_line(kind, e@, tag@));
}

/// Whether an edge of the kind drawn joins drawn nodes: both ends for module and call
/// diagrams, the source for class diagrams (whose bases may lie outside the graph).
pub open spec fn edge_joins(shown: Seq<NodeV>, kind: DiagramKind, e: EdgeV) -> bool {
    &&& edge_shown(kind, e.kind)
    &&& has_node_id(shown, e.from)
    &&& (kind == DiagramKind::ClassDiagram || has_node_id(shown, e.to))
}

/// The lines of the edges of a diagram that join drawn nodes.
pub open spec fn graph_edge_lines(edges: Seq<EdgeV>, shown: Seq<NodeV>, kind: DiagramKind) -> Seq<char>
    decreases edges.len(),
{
    if edges.len() == 0 {
        seq![]
    } else {
        let e = edges.last();
        graph_edge_lines(edges.drop_last(), shown, kind)
            + if edge_joins(shown, kind, e) { edge_line(kind, e, seq![]) } else { seq![] }
    }
}

/// The Mermaid text of a graph.
pub open spec fn mermaid_text(nodes: Seq<NodeV>, edges: Seq<EdgeV>, kind: DiagramKind) -> Seq<char> {
    if nodes.len() == 0 {
        header(kind)
    } else {
        (if nodes.filter(shown_filter(kind)).len() > 50 { "%% WARNING: graph truncated at 50 nodes\n"@ } else { seq![] })
            + header(kind) + graph_edge_lines(edges, shown_nodes(nodes, kind), kind)
    }
}

/// The lines of the edges of a difference diagram, marked with `tag`.
pub open spec fn diff_edge_lines(edges: Seq<EdgeV>, kind: DiagramKind, tag: Seq<char>) -> Seq<char>
    decreases edges.len(),
{
    if edges.len() == 0 {
        seq![]
    } else {
        let e = edges.last();
        diff_edge_lines(edges.drop_last(), kind, tag)
            + if edge_shown(kind, e.kind) { edge_line(kind, e, tag) } else { seq![] }
    }
}

/// The class lines of the nodes of a difference diagram, marked with `tag`.
pub open spec fn class_lines(nodes: Seq<NodeV>, tag: Seq<char>) -> Seq<char>
    decreases nodes.len(),
{
    if nodes.len() == 0 {
        seq![]
    } else {
        class_lines(nodes.drop_last(), tag) + "    class "@ + mermaid_id(nodes.last().id) + " "@ + tag + ";\n"@
    }
}

/// The Mermaid text of a graph difference.
pub open spec fn mermaid_diff_text(added_nodes: Seq<NodeV>, removed_nodes: Seq<NodeV>, added_edges: Seq<EdgeV>,
    removed_edges: Seq<EdgeV>, kind: DiagramKind) -> Seq<char>
{
    header(kind)
        + "    classDef added fill:#aaffaa,stroke:#00aa00;\n"@
        + "    classDef removed fill:#ffaaaa,stroke:#aa0000;\n"@
        + class_lines(added_nodes, "added"@)
        + class_lines(removed_nodes, "removed"@)
        + diff_edge_lines(added_edges, kind, "added"@)
        + diff_edge_lines(removed_edges, kind, "removed"@)
}

/// A renderer of graphs as Mermaid diagrams.
pub struct MermaidRenderer;

impl Default for MermaidRenderer {
    fn default() -> Self {
        MermaidRenderer
    }
}

fn push_diff_edge_lines(out: &mut String, edges: &Vec<Edge>, kind: DiagramKind, tag: &str)
    ensures
        final(out)@ == old(out)@ + diff_edge_lines(edges_v(edges@), kind, tag@),
{
    let ghost ev = edges_v(edges@);
    let ghost o = out@;
    let mut i: usize = 0;
    while i < edges.len()
        invariant
            ev == edges_v(edges@),
            i <= ev.len(),
            out@ == o + diff_edge_lines(ev.take(i as int), kind, tag@),
        decreases ev.len() - i,
    {
        assert(ev[i as int] == edges@[i as int]@);
        assert(ev.take(i + 1).drop_last() =~= ev.take(i as int));
        if edge_shown_exec(kind, edges[i].kind) {
            push_edge_line(out, kind, &edges[i], tag);
        }
        i = i + 1;
        assert(out@ =~= o + diff_edge_lines(ev.take(i as int), kind, tag@));
    }
    assert(ev.take(ev.len() as int) =~= ev);
}

fn push_class_lines(out: &mut String, nodes: &Vec<Node>, tag: &str)
    ensures
        final(out)@ == old(out)@ + class_lines(nodes_v(nodes@), tag@),
{
    let ghost nv = nodes_v(nodes@);
    let ghost o = out@;
    let mut i: usize = 0;
    while i < nodes.len()
        invariant
            nv == nodes_v(nodes@),
            i <= nv.len(),
            out@ == o + class_lines(nv.take(i as int), tag@),
        decreases nv.len() - i,
    {
        assert(nv[i as int] == nodes@[i as int]@);
        assert(nv.take(i + 1).drop_last() =~= nv.take(i as int));
        let id = sanitize_mermaid(nodes[i].id.as_str());
        push_str(out, "    class ");
        push_str(out, id.as_str());
        push_str(out, " ");
        push_str(out, tag);
        push_str(out, ";\n");
        i = i + 1;
        assert(out@ =~= o + class_lines(nv.take(i as int), tag@));
    }
    assert(nv.take(nv.len() as int) =~= nv);
}

impl MermaidRenderer {
    /// Creates a new renderer.
    pub fn new() -> Self {
        MermaidRenderer
    }

    /// The id as Mermaid writes it: '/', '.' and "::" become '_'.
    pub fn sanitize_id(id: &str) -> (r: String)
        ensures
            r@ == mermaid_id(id@),
    {
        sanitize_mermaid(id)
    }

    /// Renders the graph as a Mermaid diagram of the given kind: the header, then a line
    /// for each edge of the kind drawn between the first fifty drawn nodes (for a class
    /// diagram, from one of them), after a warning line where more nodes would be drawn.
    pub fn render(&self, graph: &CodeGraph, kind: DiagramKind) -> (r: String)
        ensures
            r@ == mermaid_text(graph.nv(), graph.ev(), kind),
    {
        let ghost nv = graph.nv();
        let ghost ev = graph.ev();
        let mut output = String::new();
        if graph.nodes.len() == 0 {
            push_header(&mut output, kind);
            return output;
        }
        let mut shown: Vec<Node> = Vec::new();
        let mut i: usize = 0;
        while i < graph.nodes.len()
            invariant
                nv == graph.nv(),
                i <= nv.len(),
                nodes_v(shown@) == nv.take(i as int).filter(shown_filter(kind)),
            decreases nv.len() - i,
        {
            assert(nv[i as int] == graph.nodes@[i as int]@);
            if node_shown_exec(kind, graph.nodes[i].kind) {
                shown.push(graph.nodes[i].dup());
            }
            proof {
                assert(nv.take(i + 1).drop_last() =~= nv.take(i as int));
                reveal(Seq::filter);
                assert(nodes_v(shown@) =~= nv.take(i + 1).filter(shown_filter(kind)));
            }
            i = i + 1;
        }
        assert(nv.take(nv.len() as int) =~= nv);
        proof {
            reveal_strlit("%% WARNING: graph truncated at 50 nodes\n");
        }
        if shown.len() > MAX_NODES {
            push_str(&mut output, "%% WARNING: graph truncated at 50 nodes\n");
            let ghost before = shown@;
            shown.truncate(MAX_NODES);
            assert(nodes_v(shown@) =~= nodes_v(before).take(50));
        }
        assert(nodes_v(shown@) == shown_nodes(nv, kind));
        push_header(&mut output, kind);
        let ghost o = output@;
        proof {
            reveal_strlit("");
        }
        assert(""@ =~= Seq::<char>::empty());
        let mut i: usize = 0;
        while i < graph.edges.len()
            invariant
                ev == graph.ev(),
                nodes_v(shown@) == shown_nodes(nv, kind),
                ""@ == Seq::<char>::empty(),
                i <= ev.len(),
                output@ == o + graph_edge_lines(ev.take(i as int), shown_nodes(nv, kind), kind),
            decreases ev.len() - i,
        {
            assert(ev[i as int] == graph.edges@[i as int]@);
            assert(ev.take(i + 1).drop_last() =~= ev.take(i as int));
            let e = &graph.edges[i];
            assert(ev.take(i + 1).last() == e@);
            let ghost before = output@;
            let is_class = match kind {
                DiagramKind::ClassDiagram => true,
                _ => false,
            };
            if edge_shown_exec(kind, e.kind) && contains_node_id(&shown, &e.from_id)
                && (is_class || contains_node_id(&shown, &e.to_id)) {
                push_edge_line(&mut output, kind, e, "");
                assert(output@ == before + edge_line(kind, e@, seq![]));
            }
            i = i + 1;
            assert(output@ =~= o + graph_edge_lines(ev.take(i as int), shown_nodes(nv, kind), kind));
        }
        assert(ev.take(ev.len() as int) =~= ev);
        output
    }

    /// Renders a difference diagram: the header, the two class definitions, a class line
    /// for each added and each removed node, then the lines of the added and the removed
    /// edges of the kind drawn.
    pub fn render_diff(&self, diff: &GraphDiff, kind: DiagramKind) -> (r: String)
        ensures
            r@ == mermaid_diff_text(nodes_v(diff.added_nodes@), nodes_v(diff.removed_nodes@),
                edges_v(diff.added_edges@), edges_v(diff.removed_edges@), kind),
    {
        let mut output = String::new();
        push_header(&mut output, kind);
        push_str(&mut output, "    classDef added fill:#aaffaa,stroke:#00aa00;\n");
        push_str(&mut output, "    classDef removed fill:#ffaaaa,stroke:#aa0000;\n");
        push_class_lines(&mut output, &diff.added_nodes, "added");
        push_class_lines(&mut output, &diff.removed_nodes, "removed");
        push_diff_edge_lines(&mut output, &diff.added_edges, kind, "added");
        push_diff_edge_lines(&mut output, &diff.removed_edges, kind, "removed");
        output
    }
}

/// The DOT shape of each kind of node.
pub open spec fn shape(k: NodeKind) -> Seq<char> {
    match k {
        NodeKind::Function { .. } => "ellipse"@,
        NodeKind::Class => "box"@,
        NodeKind::Interface => "diamond"@,
        NodeKind::Module => "folder"@,
        NodeKind::File => "folder"@,
        NodeKind::Constant => "box"@,
    }
}

/// The name of each kind of edge.
pub open spec fn edge_kind_name(k: EdgeKind) -> Seq<char> {
    match k {
        EdgeKind::Imports => "Imports"@,
        EdgeKind::Calls => "Calls"@,
        EdgeKind::Inherits => "Inherits"@,
        EdgeKind::Implements => "Implements"@,
        EdgeKind::Returns => "Returns"@,
        EdgeKind::Instantiates => "Instantiates"@,
        EdgeKind::Contains => "Contains"@,
    }
}

fn push_shape(out: &mut String, k: NodeKind)
    ensures
        final(out)@ == old(out)@ + shape(k),
{
    match k {
        NodeKind::Function { .. } => push_str(out, "ellipse"),
        NodeKind::Class => push_str(out, "box"),
        NodeKind::Interface => push_str(out, "diamond"),
        NodeKind::Module => push_str(out, "folder"),
        NodeKind::File => push_str(out, "folder"),
        NodeKind::Constant => push_str(out, "box"),
    }
}

/// Appends the name of the edge kind.
pub fn push_edge_kind_name(out: &mut String, k: EdgeKind)
    ensures
        final(out)@ == old(out)@ + edge_kind_name(k),
{
    match k {
        EdgeKind::Imports => push_str(out, "Imports"),
        EdgeKind::Calls => push_str(out, "Calls"),
        EdgeKind::Inherits => push_str(out, "Inherits"),
        EdgeKind::Implements => push_str(out, "Implements"),
        EdgeKind::Returns => push_str(out, "Returns"),
        EdgeKind::Instantiates => push_str(out, "Instantiates"),
        EdgeKind::Contains => push_str(out, "Contains"),
    }
}

/// The DOT lines of the nodes.
pub open spec fn dot_node_lines(nodes: Seq<NodeV>) -> Seq<char>
    decreases nodes.len(),
{
    if nodes.len() == 0 {
        seq![]
    } else {
        let n = nodes.last();
        dot_node_lines(nodes.drop_last()) + "    \""@ + dot_id(n.id) + "\" [label=\""@ + n.label + "\" shape="@
            + shape(n.kind) + "];\n"@
    }
}

/// The DOT lines of the edges between two nodes of the graph.
pub open spec fn dot_edge_lines(edges: Seq<EdgeV>, nodes: Seq<NodeV>) -> Seq<char>
    decreases edges.len(),
{
    if edges.len() == 0 {
        seq![]
    } else {
        let e = edges.last();
        dot_edge_lines(edges.drop_last(), nodes) + if has_node_id(nodes, e.from) && has_node_id(nodes, e.to) {
            "    \""@ + dot_id(e.from) + "\" -> \""@ + dot_id(e.to) + "\" [label=\""@ + edge_kind_name(e.kind) + "\"];\n"@
        } else {
            seq![]
        }
    }
}

/// The DOT text of a graph.
pub open spec fn dot_text(nodes: Seq<NodeV>, edges: Seq<EdgeV>) -> Seq<char> {
    "digraph codeviz {\n"@ + "    rankdir=TD;\n"@ + dot_node_lines(nodes) + dot_edge_lines(edges, nodes) + "}\n"@
}

/// Renders the graph as a DOT digraph: a line for each node, then a line for each edge
/// between two nodes of the graph.
#[verifier::rlimit(40)]
pub fn render_dot(graph: &CodeGraph) -> (r: String)
    ensures
        r@ == dot_text(graph.nv(), graph.ev()),
{
    let ghost nv = graph.nv();
    let ghost ev = graph.ev();
    let mut output = String::new();
    push_str(&mut output, "digraph codeviz {\n");
    push_str(&mut output, "    rankdir=TD;\n");
    let ghost o = output@;
    let mut i: usize = 0;
    while i < graph.nodes.len()
        invariant
            nv == graph.nv(),
            i <= nv.len(),
            output@ == o + dot_node_lines(nv.take(i as int)),
        decreases nv.len() - i,
    {
        assert(nv[i as int] == graph.nodes@[i as int]@);
        assert(nv.take(i + 1).drop_last() =~= nv.take(i as int));
        let n = &graph.nodes[i];
        let id = sanitize_id(n.id.as_str());
        push_str(&mut output, "    \"");
        push_str(&mut output, id.as_str());
        push_str(&mut output, "\" [label=\"");
        push_str(&mut output, n.label.as_str());
        push_str(&mut output, "\" shape=");
        push_shape(&mut output, n.kind);
        push_str(&mut output, "];\n");
        i = i + 1;
        assert(output@ =~= o + dot_node_lines(nv.take(i as int)));
    }
    assert(nv.take(nv.len() as int) =~= nv);
    let ghost o2 = output@;
    let mut i: usize = 0;
    while i < graph.edges.len()
        invariant
            nv == graph.nv(),
            ev == graph.ev(),
            i <= ev.len(),
            output@ == o2 + dot_edge_lines(ev.take(i as int), nv),
        decreases ev.len() - i,
    {
        assert(ev[i as int] == graph.edges@[i as int]@);
        assert(ev.take(i + 1).drop_last() =~= ev.take(i as int));
        let e = &graph.edges[i];
        if contains_node_id(&graph.nodes, &e.from_id) && contains_node_id(&graph.nodes, &e.to_id) {
            let from = sanitize_id(e.from_id.as_str());
            let to = sanitize_id(e.to_id.as_str());
            push_str(&mut output, "    \"");
            push_str(&mut output, from.as_str());
            push_str(&mut output, "\" -> \"");
            push_str(&mut output, to.as_str());
            push_str(&mut output, "\" [label=\"");
            push_edge_kind_name(&mut output, e.kind);
            push_str(&mut output, "\"];\n");
        }
        i = i + 1;
        assert(output@ =~= o2 + dot_edge_lines(ev.take(i as int), nv));
    }
    assert(ev.take(ev.len() as int) =~= ev);
    push_str(&mut output, "}\n");
    output
}

/// The lines listing the ids of the nodes, or "none".
pub open spec fn human_node_lines(nodes: Seq<NodeV>) -> Seq<char>
    decreases nodes.len(),
{
    if nodes.len() == 0 {
        seq![]
    } else {
        human_node_lines(nodes.drop_last()) + "     "@ + nodes.last().id + "\n"@
    }
}

/// The lines listing the edges.
pub open spec fn human_edge_lines(edges: Seq<EdgeV>) -> Seq<char>
    decreases edges.len(),
{
    if edges.len() == 0 {
        seq![]
    } else {
        let e = edges.last();
        human_edge_lines(edges.drop_last()) + "     "@ + e.from + " → "@ + e.to + " ["@ + edge_kind_name(e.kind) + "]\n"@
    }
}

/// One section of the text form of a difference.
pub open spec fn human_section(title: Seq<char>, count: nat, lines: Seq<char>) -> Seq<char> {
    title + decimal(count) + "):\n"@ + if count == 0 { "     none\n"@ } else { lines }
}

/// The text form of a difference.
pub open spec fn human_text(base_ref: Seq<char>, head_ref: Seq<char>, added_nodes: Seq<NodeV>, removed_nodes: Seq<NodeV>,
    added_edges: Seq<EdgeV>, removed_edges: Seq<EdgeV>) -> Seq<char>
{
    "📊 Architecture diff: "@ + base_ref + " → "@ + head_ref + "\n"@
        + human_section("\n  ➕ Added nodes ("@, added_nodes.len(), human_node_lines(added_nodes))
        + human_section("\n  ➖ Removed nodes ("@, removed_nodes.len(), human_node_lines(removed_nodes))
        + human_section("\n  ➕ Added edges ("@, added_edges.len(), human_edge_lines(added_edges))
        + human_section("\n  ➖ Removed edges ("@, removed_edges.len(), human_edge_lines(removed_edges))
}

fn push_human_nodes(out: &mut String, title: &str, nodes: &Vec<Node>)
    ensures
        final(out)@ == old(out)@ + human_section(title@, nodes@.len(), human_node_lines(nodes_v(nodes@))),
{
    let ghost nv = nodes_v(nodes@);
    push_str(out, title);
    push_decimal(out, nodes.len());
    push_str(out, "):\n");
    if nodes.len() == 0 {
        push_str(out, "     none\n");
        return;
    }
    let ghost o = out@;
    let mut i: usize = 0;
    while i < nodes.len()
        invariant
            nv == nodes_v(nodes@),
            i <= nv.len(),
            out@ == o + human_node_lines(nv.take(i as int)),
        decreases nv.len() - i,
    {
        assert(nv[i as int] == nodes@[i as int]@);
        assert(nv.take(i + 1).drop_last() =~= nv.take(i as int));
        push_str(out, "     ");
        push_str(out, nodes[i].id.as_str());
        push_str(out, "\n");
        i = i + 1;
        assert(out@ =~= o + human_node_lines(nv.take(i as int)));
    }
    assert(nv.take(nv.len() as int) =~= nv);
}

fn push_human_edges(out: &mut String, title: &str, edges: &Vec<Edge>)
    ensures
        final(out)@ == old(out)@ + human_section(title@, edges@.len(), human_edge_lines(edges_v(edges@))),
{
    let ghost ev = edges_v(edges@);
    push_str(out, title);
    push_decimal(out, edges.len());
    push_str(out, "):\n");
    if edges.len() == 0 {
        push_str(out, "     none\n");
        return;
    }
    let ghost o = out@;
    let mut i: usize = 0;
    while i < edges.len()
        invariant
            ev == edges_v(edges@),
            i <= ev.len(),
            out@ == o + human_edge_lines(ev.take(i as int)),
        decreases ev.len() - i,
    {
        assert(ev[i as int] == edges@[i as int]@);
        assert(ev.take(i + 1).drop_last() =~= ev.take(i as int));
        let e = &edges[i];
        push_str(out, "     ");
        push_str(out, e.from_id.as_str());
        push_str(out, " → ");
        push_str(out, e.to_id.as_str());
        push_str(out, " [");
        push_edge_kind_name(out, e.kind);
        push_str(out, "]\n");
        i = i + 1;
        assert(out@ =~= o + human_edge_lines(ev.take(i as int)));
    }
    assert(ev.take(ev.len() as int) =~= ev);
}

/// Renders a graph difference as text: a title line naming the two references, then
/// for the added and removed nodes and edges a count and one line each, or "none".
pub fn render_diff_human(diff: &GraphDiff, base_ref: &str, head_ref: &str) -> (r: Result<String, String>)
    ensures
        r matches Ok(t) && t@ == human_text(base_ref@, head_ref@, nodes_v(diff.added_nodes@),
            nodes_v(diff.removed_nodes@), edges_v(diff.added_edges@), edges_v(diff.removed_edges@)),
{
    let mut out = String::new();
    push_str(&mut out, "📊 Architecture diff: ");
    push_str(&mut out, base_ref);
    push_str(&mut out, " → ");
    push_str(&mut out, head_ref);
    push_str(&mut out, "\n");
    push_human_nodes(&mut out, "\n  ➕ Added nodes (", &diff.added_nodes);
    push_human_nodes(&mut out, "\n  ➖ Removed nodes (", &diff.removed_nodes);
    push_human_edges(&mut out, "\n  ➕ Added edges (", &diff.added_edges);
    push_human_edges(&mut out, "\n  ➖ Removed edges (", &diff.removed_edges);
    proof {
        assert(nodes_v(diff.added_nodes@).len() == diff.added_nodes@.len());
        assert(nodes_v(diff.removed_nodes@).len() == diff.removed_nodes@.len());
        assert(edges_v(diff.added_edges@).len() == diff.added_edges@.len());
        assert(edges_v(diff.removed_edges@).len() == diff.removed_edges@.len());
    }
    Ok(out)
}

} // verus!
