//! Code architecture graphs: the graph model, its algorithms, the renderers and the
//! source extractors that fill it.

pub mod text;
pub mod ir;

pub use ir::{CfgBlock, CfgBlockKind, CfgEdge, CfgEdgeKind, CodeGraph, ControlFlowGraph, Edge, EdgeKind, GraphMeta, GraphStats, Node, NodeKind};
pub mod paths;
pub mod reach;
pub mod prune;
pub mod diff;
pub mod path_utils;
pub mod inject;
pub mod render;
pub mod parser;
pub mod syntax;
pub mod extract;
pub mod go;
pub mod order;
pub mod summary;
pub mod python;
pub mod config;
pub mod cache;
pub mod cli;
pub mod textops;
pub mod rust;
pub mod java;
pub mod kotlin;
pub mod flow;
pub mod typescript;
pub mod ast_graph;
pub mod mcp;
pub mod generic;
pub mod queries;
pub mod gomod;
pub mod callers;
pub mod cfg_laws;
