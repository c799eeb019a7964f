use codeviz::cache::{CacheEntry, CacheManager};
use codeviz::cli::{find_config_path, parse_diagram_kind, parse_run_args, parse_usize, route_cli, CliAction, RunArgs};
use codeviz::config::{CacheConfig, Config, GraphConfig, LanguagesConfig, OutputConfig};
use codeviz::render::{DiagramKind, OutputFormat};
use sha2::Digest;

fn args(v: &[&str]) -> Vec<String> {
    v.iter().map(|s| s.to_string()).collect()
}

fn default_config() -> Config {
    Config {
        graph: GraphConfig::default(),
        languages: LanguagesConfig::default(),
        output: OutputConfig::default(),
        cache: CacheConfig::default(),
    }
}

#[test]
fn test_cli_args_parsing() {
    let args = args(&["--path", "src", "--output", "DOCS.md", "--diagram", "call", "--depth", "3"]);
    let run_args = parse_run_args(&args, &default_config()).unwrap();
    assert_eq!(run_args.path, "src");
    assert_eq!(run_args.output, Some("DOCS.md".to_string()));
    assert_eq!(run_args.diagram, DiagramKind::CallGraph);
    assert_eq!(run_args.depth, Some(3));
}

#[test]
fn test_cli_flag_precedence() {
    // The configuration file reads: [graph] diagram_type = "module", max_depth = 10.
    let mut config = default_config();
    config.graph.diagram_type = "module".to_string();
    config.graph.max_depth = 10;
    let args = args(&["--config", "codeviz_precedence.toml", "--diagram", "call"]);
    let run_args = parse_run_args(&args, &config).unwrap();
    assert_eq!(run_args.diagram, DiagramKind::CallGraph);
    assert_eq!(run_args.depth, Some(10));
    assert_eq!(run_args.config_path, Some("codeviz_precedence.toml".to_string()));
}

#[test]
fn run_args_start_from_the_configuration() {
    let run_args = parse_run_args(&args(&[]), &default_config()).unwrap();
    assert_eq!(run_args.config_path, None);
    assert_eq!(run_args.path, ".");
    assert_eq!(run_args.format, OutputFormat::Mermaid);
    assert_eq!(run_args.output, Some("README.md".to_string()));
    assert_eq!(run_args.diagram, DiagramKind::ModuleGraph);
    assert_eq!(run_args.depth, None);

    let mut config = default_config();
    config.output.targets = vec![];
    config.graph.diagram_type = "nonsense".to_string();
    let run_args = parse_run_args(&args(&["unknown", "--path", "lib"]), &config).unwrap();
    assert_eq!(run_args.output, Some("README.md".to_string()));
    assert_eq!(run_args.diagram, DiagramKind::ModuleGraph);
    assert_eq!(run_args.path, "lib");

    config.output.targets = vec!["ARCH.md".to_string(), "OTHER.md".to_string()];
    config.graph.diagram_type = "class".to_string();
    let run_args = parse_run_args(&args(&[]), &config).unwrap();
    assert_eq!(run_args.output, Some("ARCH.md".to_string()));
    assert_eq!(run_args.diagram, DiagramKind::ClassDiagram);
}

#[test]
fn output_names_a_format_in_any_case() {
    let run_args = parse_run_args(&args(&["--output", "JSON"]), &default_config()).unwrap();
    assert_eq!(run_args.format, OutputFormat::Json);
    assert_eq!(run_args.output, None);
    let run_args = parse_run_args(&args(&["--output", "Dot"]), &default_config()).unwrap();
    assert_eq!(run_args.format, OutputFormat::Dot);
    let run_args = parse_run_args(&args(&["--output", "json", "--output", "notes.md"]), &default_config()).unwrap();
    assert_eq!(run_args.format, OutputFormat::Mermaid);
    assert_eq!(run_args.output, Some("notes.md".to_string()));
}

#[test]
fn run_args_errors() {
    let config = default_config();
    for (flag, message) in [
        ("--config", "Missing argument for --config"),
        ("--path", "Missing argument for --path"),
        ("--output", "Missing argument for --output"),
        ("--diagram", "Missing argument for --diagram"),
        ("--depth", "Missing argument for --depth"),
    ] {
        assert_eq!(parse_run_args(&args(&[flag]), &config), Err(message.to_string()));
    }
    assert_eq!(
        parse_run_args(&args(&["--diagram", "flow"]), &config),
        Err("Invalid diagram kind: flow".to_string())
    );
    assert_eq!(parse_run_args(&args(&["--depth", "-1"]), &config), Err("Invalid depth: -1".to_string()));
    assert_eq!(parse_run_args(&args(&["--depth", "abc"]), &config), Err("Invalid depth: abc".to_string()));
    // A missing value for --config is found before anything else is read.
    assert_eq!(
        parse_run_args(&args(&["--depth", "x", "--config"]), &config),
        Err("Missing argument for --config".to_string())
    );
}

#[test]
fn config_path_is_the_first_one_given() {
    assert_eq!(find_config_path(&args(&["--path", "a"])), Ok(None));
    assert_eq!(find_config_path(&args(&["--config", "a.toml", "--config", "b.toml"])), Ok(Some("a.toml".to_string())));
    assert_eq!(find_config_path(&args(&["--config"])), Err("Missing argument for --config".to_string()));
}

#[test]
fn usize_parsing_follows_str_parse() {
    assert_eq!(parse_usize(&"0".to_string()), Some(0));
    assert_eq!(parse_usize(&"+42".to_string()), Some(42));
    assert_eq!(parse_usize(&"007".to_string()), Some(7));
    assert_eq!(parse_usize(&"".to_string()), None);
    assert_eq!(parse_usize(&"+".to_string()), None);
    assert_eq!(parse_usize(&"1 2".to_string()), None);
    assert_eq!(parse_usize(&usize::MAX.to_string()), Some(usize::MAX));
    assert_eq!(parse_usize(&"18446744073709551616".to_string()), None);
    for s in ["12", "+9", "x", "99999999999999999999"] {
        assert_eq!(parse_usize(&s.to_string()), s.parse::<usize>().ok());
    }
}

#[test]
fn diagram_kinds_by_name() {
    assert_eq!(parse_diagram_kind("module"), Ok(DiagramKind::ModuleGraph));
    assert_eq!(parse_diagram_kind("call"), Ok(DiagramKind::CallGraph));
    assert_eq!(parse_diagram_kind("class"), Ok(DiagramKind::ClassDiagram));
    assert_eq!(parse_diagram_kind("Module"), Err("Invalid diagram kind: Module".to_string()));
}

#[test]
fn run_args_default() {
    let d = RunArgs::default();
    assert_eq!(d.config_path, None);
    assert_eq!(d.path, ".");
    assert_eq!(d.format, OutputFormat::Mermaid);
    assert_eq!(d.output, None);
    assert_eq!(d.diagram, DiagramKind::ModuleGraph);
    assert_eq!(d.depth, None);
}

#[test]
fn configuration_defaults() {
    let g = GraphConfig::default();
    assert_eq!(g.max_depth, 0);
    assert_eq!(g.max_nodes, 50);
    assert_eq!(g.diagram_type, "module");
    assert_eq!(g.includes, vec!["**".to_string()]);
    assert_eq!(g.exclude, vec!["**/target/**", "**/node_modules/**", "**/.git/**", "**/vendor/**"]);
    assert_eq!(LanguagesConfig::default().enabled, vec!["python", "typescript", "go", "rust", "java", "kotlin"]);
    let o = OutputConfig::default();
    assert_eq!(o.sentinel_start, "<!-- CODEVIZ_START -->");
    assert_eq!(o.sentinel_end, "<!-- CODEVIZ_END -->");
    assert_eq!(o.targets, vec!["README.md".to_string()]);
    let c = CacheConfig::default();
    assert!(c.enabled);
    assert_eq!(c.dir, ".codeviz_cache");
}

#[test]
fn cache_key_hashes_path_time_size_and_contents() {
    let manager = CacheManager::new(".codeviz_cache", "0.1.0");
    assert_eq!(manager.cache_dir, ".codeviz_cache");
    assert_eq!(manager.version, "0.1.0");
    let key = manager.cache_key_of("src/a.py", 1700000000123456789, 12, b"print('hi')\n");
    let expected = hex::encode(sha2::Sha256::digest(b"src/a.py|1700000000123456789|12|print('hi')\n"));
    assert_eq!(key, expected);
    assert_eq!(key.len(), 64);
    let later = manager.cache_key_of("src/a.py", 1700000000123456790, 12, b"print('hi')\n");
    assert_ne!(key, later);
    let empty = manager.cache_key_of("", 0, 0, b"");
    assert_eq!(empty, hex::encode(sha2::Sha256::digest(b"|0|0|")));
}

#[test]
fn command_lines_route_to_their_action() {
    assert_eq!(route_cli(&args(&["codeviz", "--help"])), CliAction::Help);
    assert_eq!(route_cli(&args(&["codeviz", "run", "--help"])), CliAction::Help);
    assert_eq!(route_cli(&args(&["codeviz", "serve", "--mcp"])), CliAction::ServeMcp);
    assert_eq!(route_cli(&args(&["codeviz", "serve"])), CliAction::ServeWithoutMcp);
    assert_eq!(route_cli(&args(&["codeviz", "run", "--path", "."])), CliAction::Run);
    assert_eq!(route_cli(&args(&["codeviz"])), CliAction::Unknown);
    assert_eq!(route_cli(&args(&["codeviz", "check"])), CliAction::Unknown);
}

#[test]
fn a_cache_entry_is_current_only_for_this_version_and_key() {
    let manager = CacheManager::new(".codeviz_cache", "0.1.0");
    let entry = CacheEntry {
        cache_key: "abc".to_string(),
        file_path: "a.py".to_string(),
        codeviz_version: "0.1.0".to_string(),
        nodes: vec![],
        edges: vec![],
    };
    assert!(manager.entry_is_current(&entry, "abc"));
    assert!(!manager.entry_is_current(&entry, "abd"));
    let older = CacheManager::new(".codeviz_cache", "0.0.9");
    assert!(!older.entry_is_current(&entry, "abc"));
}
