//! The language-independent graph model: nodes, edges, control flow graphs and metadata.

use vstd::prelude::*;
use crate::text::copy_string;

verus! {

/// The kind of a code graph node.
#[derive(Debug, Clone, Copy, PartialEq, Eq, Structural)]
pub enum NodeKind {
    /// A file.
    File,
    /// A module.
    Module,
    /// A function; `is_async` tells whether it is async.
    Function { is_async: bool },
    /// A class.
    Class,
    /// An interface.
    Interface,
    /// A constant.
    Constant,
}

/// The kind of a code graph edge.
#[derive(Debug, Clone, Copy, PartialEq, Eq, Hash, Structural)]
pub enum EdgeKind {
    /// Module-level dependency.
    Imports,
    /// Function invokes function.
    Calls,
    /// Class extends class / trait extends trait.
    Inherits,
    /// Class implements interface / impl Trait for Struct.
    Implements,
    /// Function returns type.
    Returns,
    /// Function creates instance of class.
    Instantiates,
    /// Scope contains member (File→Class, File→Function, Class→Method).
    Contains,
}

/// A node in the code graph, representing a code symbol or file.
#[derive(Debug, Clone, PartialEq)]
pub struct Node {
    /// Globally unique ID: "{file_path}::{symbol_name}".
    pub id: String,
    /// Display name.
    pub label: String,
    /// Type of node.
    pub kind: NodeKind,
    /// Path relative to the source root.
    pub file_path: String,
    /// 1-indexed line number; None if not resolvable.
    pub line: Option<u32>,
    /// True if exported/pub.
    pub is_public: bool,
    /// Parent ID for nested visualization (e.g. methods inside classes).
    pub parent_id: Option<String>,
}

/// What a node holds, as plain values.
pub struct NodeV {
    pub id: Seq<char>,
    pub label: Seq<char>,
    pub kind: NodeKind,
    pub file_path: Seq<char>,
    pub line: Option<u32>,
    pub is_public: bool,
    pub parent_id: Option<Seq<char>>,
}

/// The characters of an optional string.
pub open spec fn opt_view(o: Option<String>) -> Option<Seq<char>> {
    match o {
        Some(s) => Some(s@),
        None => None,
    }
}

/// A copy of an optional string.
pub fn copy_opt(o: &Option<String>) -> (r: Option<String>)
    ensures
        opt_view(r) == opt_view(*o),
{
    match o {
        Some(s) => Some(copy_string(s)),
        None => None,
    }
}

impl View for Node {
    type V = NodeV;

    open spec fn view(&self) -> NodeV {
        NodeV {
            id: self.id@,
            label: self.label@,
            kind: self.kind,
            file_path: self.file_path@,
            line: self.line,
            is_public: self.is_public,
            parent_id: opt_view(self.parent_id),
        }
    }
}

impl Node {
    /// A copy of this node.
    pub fn dup(&self) -> (r: Node)
        ensures
            r@ == self@,
    {
        Node {
            id: copy_string(&self.id),
            label: copy_string(&self.label),
            kind: self.kind,
            file_path: copy_string(&self.file_path),
            line: self.line,
            is_public: self.is_public,
            parent_id: copy_opt(&self.parent_id),
        }
    }
}

/// An edge in the code graph, representing a relationship between two nodes.
#[derive(Debug, Clone, PartialEq)]
pub struct Edge {
    /// ID of the source node.
    pub from_id: String,
    /// ID of the target node (may be external).
    pub to_id: String,
    /// Type of edge relationship.
    pub kind: EdgeKind,
}

/// What an edge holds, as plain values.
pub struct EdgeV {
    pub from: Seq<char>,
    pub to: Seq<char>,
    pub kind: EdgeKind,
}

impl View for Edge {
    type V = EdgeV;

    open spec fn view(&self) -> EdgeV {
        EdgeV { from: self.from_id@, to: self.to_id@, kind: self.kind }
    }
}

impl Edge {
    /// A copy of this edge.
    pub fn dup(&self) -> (r: Edge)
        ensures
            r@ == self@,
    {
        Edge { from_id: copy_string(&self.from_id), to_id: copy_string(&self.to_id), kind: self.kind }
    }
}

/// Metadata about the code graph.
#[derive(Debug, Clone, PartialEq)]
pub struct GraphMeta {
    /// Language name (e.g., "python", "typescript").
    pub language: String,
    /// Absolute path scanned.
    pub source_root: String,
    /// ISO 8601 UTC timestamp of generation.
    pub generated_at: String,
    /// Total number of nodes.
    pub node_count: usize,
    /// Total number of edges.
    pub edge_count: usize,
}

/// What graph metadata holds, as plain values.
pub struct GraphMetaV {
    pub language: Seq<char>,
    pub source_root: Seq<char>,
    pub generated_at: Seq<char>,
    pub node_count: usize,
    pub edge_count: usize,
}

impl View for GraphMeta {
    type V = GraphMetaV;

    open spec fn view(&self) -> GraphMetaV {
        GraphMetaV {
            language: self.language@,
            source_root: self.source_root@,
            generated_at: self.generated_at@,
            node_count: self.node_count,
            edge_count: self.edge_count,
        }
    }
}

impl Default for GraphMeta {
    fn default() -> (r: Self)
        ensures
            r.language@ == Seq::<char>::empty(),
            r.source_root@ == Seq::<char>::empty(),
            r.generated_at@ == Seq::<char>::empty(),
            r.node_count == 0,
            r.edge_count == 0,
    {
        GraphMeta {
            language: String::new(),
            source_root: String::new(),
            generated_at: String::new(),
            node_count: 0,
            edge_count: 0,
        }
    }
}

/// The kind of a control flow block.
#[derive(Debug, Clone, Copy, PartialEq, Eq, Structural)]
pub enum CfgBlockKind {
    /// Function entry point.
    Entry,
    /// Function exit / return.
    Exit,
    /// A plain statement block.
    Block,
    /// An if/else condition (decision diamond).
    Condition,
    /// A loop header (for/while/do-while).
    LoopHeader,
    /// A loop body.
    LoopBody,
    /// A match/switch arm.
    SwitchArm,
    /// A try block.
    TryBlock,
    /// A catch/except block.
    CatchBlock,
    /// A finally block.
    FinallyBlock,
    /// An async/await suspension point.
    AwaitPoint,
    /// A throw/raise error propagation.
    ThrowPoint,
}

/// The kind of a control flow edge.
#[derive(Debug, Clone, Copy, PartialEq, Eq, Structural)]
pub enum CfgEdgeKind {
    /// Normal sequential flow.
    Normal,
    /// True branch of an if/condition.
    TrueBranch,
    /// False branch of an if/condition.
    FalseBranch,
    /// Loop back edge (creates cycle).
    LoopBack,
    /// Exception propagation to catch block.
    ExceptionEdge,
    /// Always-runs path (finally block).
    FinallyEdge,
    /// Async suspension / resume.
    AsyncEdge,
}

/// A single block in a control flow graph.
#[derive(Debug, Clone, PartialEq)]
pub struct CfgBlock {
    /// ID of the block.
    pub id: String,
    /// Kind of the block.
    pub kind: CfgBlockKind,
    /// Human-readable label (e.g., the condition expression).
    pub label: String,
    /// 1-indexed line number in source.
    pub line: Option<u32>,
}

/// What a control flow block holds, as plain values.
pub struct CfgBlockV {
    pub id: Seq<char>,
    pub kind: CfgBlockKind,
    pub label: Seq<char>,
    pub line: Option<u32>,
}

impl View for CfgBlock {
    type V = CfgBlockV;

    open spec fn view(&self) -> CfgBlockV {
        CfgBlockV { id: self.id@, kind: self.kind, label: self.label@, line: self.line }
    }
}

/// An edge between control flow blocks.
#[derive(Debug, Clone, PartialEq)]
pub struct CfgEdge {
    /// ID of the source block.
    pub from_id: String,
    /// ID of the target block.
    pub to_id: String,
    /// Kind of the edge.
    pub kind: CfgEdgeKind,
    /// Optional label (e.g., "true", "false").
    pub label: Option<String>,
}

/// What a control flow edge holds, as plain values.
pub struct CfgEdgeV {
    pub from: Seq<char>,
    pub to: Seq<char>,
    pub kind: CfgEdgeKind,
    pub label: Option<Seq<char>>,
}

impl View for CfgEdge {
    type V = CfgEdgeV;

    open spec fn view(&self) -> CfgEdgeV {
        CfgEdgeV { from: self.from_id@, to: self.to_id@, kind: self.kind, label: opt_view(self.label) }
    }
}

/// A control flow graph for a single function.
#[derive(Debug, Clone, PartialEq)]
pub struct ControlFlowGraph {
    /// The ID of the function node this graph belongs to.
    pub function_id: String,
    /// All blocks.
    pub blocks: Vec<CfgBlock>,
    /// Edges between blocks.
    pub cfg_edges: Vec<CfgEdge>,
}

/// Represents the intermediate representation of the code architecture graph.
#[derive(Debug, Clone, PartialEq)]
pub struct CodeGraph {
    /// List of nodes in the graph.
    pub nodes: Vec<Node>,
    /// List of edges connecting the nodes.
    pub edges: Vec<Edge>,
    /// Control flow graphs for functions.
    pub control_flow: Vec<ControlFlowGraph>,
    /// Metadata about the graph.
    pub meta: GraphMeta,
}

/// The plain values of a sequence of nodes.
pub open spec fn nodes_v(nodes: Seq<Node>) -> Seq<NodeV> {
    nodes.map_values(|n: Node| n@)
}

/// The plain values of a sequence of edges.
pub open spec fn edges_v(edges: Seq<Edge>) -> Seq<EdgeV> {
    edges.map_values(|e: Edge| e@)
}

impl CodeGraph {
    /// The nodes of the graph, as plain values.
    pub open spec fn nv(&self) -> Seq<NodeV> {
        nodes_v(self.nodes@)
    }

    /// The edges of the graph, as plain values.
    pub open spec fn ev(&self) -> Seq<EdgeV> {
        edges_v(self.edges@)
    }

    /// Creates a new empty graph with the given metadata.
    pub fn new(meta: GraphMeta) -> (g: Self)
        ensures
            g.nodes@.len() == 0,
            g.edges@.len() == 0,
            g.control_flow@.len() == 0,
            g.meta == meta,
    {
        CodeGraph { nodes: Vec::new(), edges: Vec::new(), control_flow: Vec::new(), meta }
    }

    /// Appends another graph's nodes and edges, as a file's graph joins the graph of a
    /// whole tree; the counts in the metadata become those of the result, and the rest of
    /// the metadata stays.
    pub fn absorb(&mut self, other: CodeGraph)
        ensures
            final(self).nodes@ == old(self).nodes@ + other.nodes@,
            final(self).edges@ == old(self).edges@ + other.edges@,
            final(self).nv() == old(self).nv() + other.nv(),
            final(self).ev() == old(self).ev() + other.ev(),
            final(self).control_flow@ == old(self).control_flow@,
            final(self).meta.language == old(self).meta.language,
            final(self).meta.source_root == old(self).meta.source_root,
            final(self).meta.generated_at == old(self).meta.generated_at,
            final(self).meta.node_count == final(self).nodes@.len(),
            final(self).meta.edge_count == final(self).edges@.len(),
    {
        let ghost on = other.nodes@;
        let ghost oe = other.edges@;
        let mut other = other;
        self.nodes.append(&mut other.nodes);
        self.edges.append(&mut other.edges);
        self.meta.node_count = self.nodes.len();
        self.meta.edge_count = self.edges.len();
        assert(self.nv() =~= old(self).nv() + nodes_v(on));
        assert(self.ev() =~= old(self).ev() + edges_v(oe));
    }
}

impl Default for CodeGraph {
    fn default() -> (g: Self)
        ensures
            g.nodes@.len() == 0,
            g.edges@.len() == 0,
            g.control_flow@.len() == 0,
            g.meta@.language == Seq::<char>::empty(),
            g.meta@.source_root == Seq::<char>::empty(),
            g.meta@.generated_at == Seq::<char>::empty(),
            g.meta.node_count == 0,
            g.meta.edge_count == 0,
    {
        CodeGraph::new(GraphMeta::default())
    }
}

/// Statistics for a code graph.
#[derive(Debug, Clone, PartialEq)]
pub struct GraphStats {
    /// Total number of nodes in the graph.
    pub total_nodes: usize,
    /// Total number of edges in the graph.
    pub total_edges: usize,
    /// List of languages in the graph.
    pub languages: Vec<String>,
    /// List of entry point node labels.
    pub entry_points: Vec<String>,
    /// List of most imported module labels.
    pub top_modules: Vec<String>,
    /// Number of circular dependencies detected.
    pub circular_dep_count: usize,
}

} // verus!
