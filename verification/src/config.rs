//! The configuration of a run, with its defaults.

use vstd::prelude::*;
use crate::text::to_owned_string;

verus! {

/// The whole configuration.
#[derive(Debug, PartialEq, Clone)]
pub struct Config {
    pub graph: GraphConfig,
    pub languages: LanguagesConfig,
    pub output: OutputConfig,
    pub cache: CacheConfig,
}

/// How the graph is drawn.
#[derive(Debug, PartialEq, Clone)]
pub struct GraphConfig {
    pub max_depth: usize,
    pub max_nodes: usize,
    pub diagram_type: String,
    pub includes: Vec<String>,
    pub exclude: Vec<String>,
}

/// Which languages are read.
#[derive(Debug, PartialEq, Clone)]
pub struct LanguagesConfig {
    pub enabled: Vec<String>,
}

/// Where the diagram goes.
#[derive(Debug, PartialEq, Clone)]
pub struct OutputConfig {
    pub sentinel_start: String,
    pub sentinel_end: String,
    pub targets: Vec<String>,
}

/// The parse cache.
#[derive(Debug, PartialEq, Clone)]
pub struct CacheConfig {
    pub enabled: bool,
    pub dir: String,
}

impl Default for GraphConfig {
    fn default() -> (r: Self)
        ensures
            r.max_depth == 0,
            r.max_nodes == 50,
            r.diagram_type@ == "module"@,
            r.includes.deep_view() == seq!["**"@],
            r.exclude.deep_view() == seq!["**/target/**"@, "**/node_modules/**"@, "**/.git/**"@, "**/vendor/**"@],
    {
        let mut includes: Vec<String> = Vec::new();
        includes.push(to_owned_string("**"));
        let mut exclude: Vec<String> = Vec::new();
        exclude.push(to_owned_string("**/target/**"));
        exclude.push(to_owned_string("**/node_modules/**"));
        exclude.push(to_owned_string("**/.git/**"));
        exclude.push(to_owned_string("**/vendor/**"));
        assert(includes.deep_view() =~= seq!["**"@]);
        assert(exclude.deep_view() =~= seq!["**/target/**"@, "**/node_modules/**"@, "**/.git/**"@, "**/vendor/**"@]);
        GraphConfig { max_depth: 0, max_nodes: 50, diagram_type: to_owned_string("module"), includes, exclude }
    }
}

impl Default for LanguagesConfig {
    fn default() -> (r: Self)
        ensures
            r.enabled.deep_view() == seq!["python"@, "typescript"@, "go"@, "rust"@, "java"@, "kotlin"@],
    {
        let mut enabled: Vec<String> = Vec::new();
        enabled.push(to_owned_string("python"));
        enabled.push(to_owned_string("typescript"));
        enabled.push(to_owned_string("go"));
        enabled.push(to_owned_string("rust"));
        enabled.push(to_owned_string("java"));
        enabled.push(to_owned_string("kotlin"));
        assert(enabled.deep_view() =~= seq!["python"@, "typescript"@, "go"@, "rust"@, "java"@, "kotlin"@]);
        LanguagesConfig { enabled }
    }
}

impl Default for OutputConfig {
    fn default() -> (r: Self)
        ensures
            r.sentinel_start@ == "<!-- CODEVIZ_START -->"@,
            r.sentinel_end@ == "<!-- CODEVIZ_END -->"@,
            r.targets.deep_view() == seq!["README.md"@],
    {
        let mut targets: Vec<String> = Vec::new();
        targets.push(to_owned_string("README.md"));
        assert(targets.deep_view() =~= seq!["README.md"@]);
        OutputConfig {
            sentinel_start: to_owned_string("<!-- CODEVIZ_START -->"),
            sentinel_end: to_owned_string("<!-- CODEVIZ_END -->"),
            targets,
        }
    }
}

impl Default for CacheConfig {
    fn default() -> (r: Self)
        ensures
            r.enabled,
            r.dir@ == ".codeviz_cache"@,
    {
        CacheConfig { enabled: true, dir: to_owned_string(".codeviz_cache") }
    }
}

impl Default for Config {
    fn default() -> (r: Self)
        ensures
            r.graph.max_depth == 0,
            r.graph.max_nodes == 50,
            r.graph.diagram_type@ == "module"@,
            r.languages.enabled.deep_view() == seq!["python"@, "typescript"@, "go"@, "rust"@, "java"@, "kotlin"@],
            r.output.targets.deep_view() == seq!["README.md"@],
            r.cache.enabled,
            r.cache.dir@ == ".codeviz_cache"@,
    {
        Config {
            graph: GraphConfig::default(),
            languages: LanguagesConfig::default(),
            output: OutputConfig::default(),
            cache: CacheConfig::default(),
        }
    }
}

} // verus!
