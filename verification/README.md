# codeviz

Builds architecture graphs of source trees (files, modules, classes, functions and the
imports, calls, inheritance and containment between them) and renders them as Mermaid or
Graphviz diagrams, or answers questions about them.

## Layout

- `src/` is the library, verified with Verus. The functions state what they return in
  their `ensures`, over the spec functions and views of the graph model in `ir.rs`.
  - `ir.rs`: nodes, edges, graphs, control-flow graphs, and their views.
  - `syntax.rs`: the bundled grammars and the tree-sitter calls. What tree-sitter gives
    (a node's kind, children, fields, bytes and rows; what a query matches) is named by
    uninterpreted spec functions of the grammar, the source text and the node's path, so
    that the copied syntax tree, and each extractor's graph, is pinned to the source.
  - `python.rs`, `typescript.rs`, `go.rs`, `gomod.rs`, `rust.rs`, `java.rs`, `kotlin.rs`,
    `generic.rs`: the extractors, each stated as a spec function from syntax tree (or
    query matches) to graph.
  - `flow.rs`, `cfg_laws.rs`: control-flow graphs of Python functions, and what their walk
    keeps (blocks numbered in order, edges only between blocks of the graph).
  - `ast_graph.rs`: graphs from syntax trees handed over as data.
  - `render.rs`, `inject.rs`: Mermaid and DOT text, and the markdown block it replaces.
  - `reach.rs`, `paths.rs`, `callers.rs`, `prune.rs`, `queries.rs`, `summary.rs`, `diff.rs`:
    the graph algorithms (reachability, paths, caller trees, pruning, breadth-first routes,
    summaries, differences).
  - `parser.rs`, `path_utils.rs`, `cli.rs`, `config.rs`, `cache.rs`, `mcp.rs`: dispatch by
    extension, paths, command-line arguments, configuration defaults, cache keys and the
    decisions of the tool server. A `LanguageParser` states the extensions it claims and
    what it answers through two spec functions of the trait; the registry records the
    extensions a parser claims when it is registered, and `parse_file` answers with what
    the last registered parser claiming the file's extension answers for the slashed path.
- `tests/` runs the library on concrete inputs.
- `app/` is the program around it: the command line, file and directory access, TOML and
  JSON, and the JSON-RPC server loop.
