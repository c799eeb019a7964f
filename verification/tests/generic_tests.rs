use codeviz::generic::{get_language, register_all, GenericParser, LangConfig, LanguageMeta, QueryConfig};
use codeviz::ir::{EdgeKind, NodeKind};
use codeviz::parser::{LanguageParser, LanguageRegistry};

fn ruby_config(functions: Option<&str>, classes: Option<&str>, imports: Option<&str>) -> LangConfig {
    LangConfig {
        language: LanguageMeta {
            name: "ruby".to_string(),
            extensions: vec!["rb".to_string()],
            grammar: "tree-sitter-ruby".to_string(),
        },
        queries: QueryConfig {
            functions: functions.map(|s| s.to_string()),
            async_functions: None,
            classes: classes.map(|s| s.to_string()),
            interfaces: None,
            imports: imports.map(|s| s.to_string()),
            inheritance: None,
            exports: None,
        },
    }
}

#[test]
fn test_generic_ruby_queries() {
    let config = ruby_config(
        Some("(method name: (identifier) @name) @node"),
        Some("(class name: (constant) @name) @node"),
        Some("(call method: (identifier) @m arguments: (argument_list (string (string_content) @path)) (#eq? @m \"require\"))"),
    );
    let parser = GenericParser::new(config);
    assert_eq!(parser.language_name(), "ruby");
    assert_eq!(parser.supported_extensions(), &["rb"]);
    let source = "require 'json'\nclass MyClass\n  def my_func\n  end\nend\n";
    let graph = parser.parse(source, "lib/test.rb").unwrap();
    assert_eq!(graph.nodes[0].id, "lib/test.rb");
    assert_eq!(graph.nodes[0].label, "test.rb");
    assert_eq!(graph.nodes[0].line, Some(1));
    let f = graph.nodes.iter().find(|n| n.label == "my_func").unwrap();
    assert_eq!(f.id, "lib/test.rb::my_func");
    assert_eq!(f.kind, NodeKind::Function { is_async: false });
    assert_eq!(f.line, Some(3));
    let c = graph.nodes.iter().find(|n| n.label == "MyClass").unwrap();
    assert_eq!(c.kind, NodeKind::Class);
    assert_eq!(c.line, Some(2));
    assert_eq!(graph.edges.len(), 1);
    assert_eq!(graph.edges[0].to_id, "json");
    assert_eq!(graph.edges[0].kind, EdgeKind::Imports);
    assert_eq!(graph.meta.language, "ruby");
    assert_eq!(graph.meta.node_count, 3);
}

#[test]
fn test_generic_errors() {
    let bad = GenericParser::new(ruby_config(Some("(method"), None, None));
    let err = bad.parse("def f\nend\n", "x.rb").unwrap_err();
    assert!(err.message.starts_with("Invalid query string: "));
    assert_eq!(err.file_path, "x.rb");
    let mut config = ruby_config(None, None, None);
    config.language.grammar = "tree-sitter-cobol".to_string();
    let err = GenericParser::new(config).parse("", "x.cob").unwrap_err();
    assert_eq!(err.message, "Unknown grammar: tree-sitter-cobol");
    assert_eq!(err.file_path, "");
    assert!(get_language("tree-sitter-lua").is_ok());
    assert!(get_language("tree-sitter-python").is_err());
}

#[test]
fn test_register_all_dispatches() {
    let mut registry = LanguageRegistry::new();
    register_all(&mut registry, vec![GenericParser::new(ruby_config(Some("(method name: (identifier) @name) @node"), None, None))]);
    assert!(registry.find_parser("rb").is_some());
    let graph = registry.parse_file("a.rb", "def hello\nend\n").unwrap();
    assert!(graph.nodes.iter().any(|n| n.label == "hello"));
}

fn bare_config(name: &str, ext: &str, grammar: &str, functions: Option<&str>) -> LangConfig {
    LangConfig {
        language: LanguageMeta {
            name: name.to_string(),
            extensions: vec![ext.to_string()],
            grammar: grammar.to_string(),
        },
        queries: QueryConfig {
            functions: functions.map(|s| s.to_string()),
            async_functions: None,
            classes: None,
            interfaces: None,
            imports: None,
            inheritance: None,
            exports: None,
        },
    }
}

#[test]
fn register_all_gives_an_extension_to_the_last_parser_claiming_it() {
    let mut registry = LanguageRegistry::new();
    register_all(&mut registry, vec![
        GenericParser::new(bare_config("ruby_old", "rb", "tree-sitter-ruby", None)),
        GenericParser::new(bare_config("lua", "lua", "tree-sitter-lua", None)),
        GenericParser::new(bare_config("ruby_new", "rb", "tree-sitter-ruby", None)),
    ]);
    assert_eq!(registry.parse_file("a.rb", "").unwrap().meta.language, "ruby_new");
    assert_eq!(registry.parse_file("a.lua", "").unwrap().meta.language, "lua");
    assert!(registry.find_parser("py").is_none());
}

#[test]
fn every_bundled_grammar_parses_and_checks_its_queries() {
    let grammars = [
        ("tree-sitter-ruby", "rb"),
        ("tree-sitter-swift", "swift"),
        ("tree-sitter-c-sharp", "cs"),
        ("tree-sitter-php", "php"),
        ("tree-sitter-dart", "dart"),
        ("tree-sitter-lua", "lua"),
    ];
    for (grammar, ext) in grammars {
        let file = format!("src/a.{}", ext);
        let graph = GenericParser::new(bare_config("x", ext, grammar, None)).parse("", &file).unwrap();
        assert_eq!(graph.nodes.len(), 1);
        assert_eq!(graph.nodes[0].id, file);
        assert_eq!(graph.meta.language, "x");
        let err = GenericParser::new(bare_config("x", ext, grammar, Some("(no_such_node_kind) @name")))
            .parse("", &file)
            .unwrap_err();
        assert!(err.message.starts_with("Invalid query string: "), "{}", grammar);
        assert_eq!(err.file_path, file);
    }
}

#[test]
fn lua_function_query_names_its_functions() {
    let parser = GenericParser::new(bare_config(
        "lua",
        "lua",
        "tree-sitter-lua",
        Some("(function_declaration name: (identifier) @name) @node"),
    ));
    let graph = parser.parse("local x = 1\nfunction greet()\nend\n", "m.lua").unwrap();
    let f = graph.nodes.iter().find(|n| n.label == "greet").unwrap();
    assert_eq!(f.id, "m.lua::greet");
    assert_eq!(f.line, Some(2));
}
