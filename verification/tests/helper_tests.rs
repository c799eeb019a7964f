use codeviz::syntax::{parse_bundled, LUA_GRAMMAR, PYTHON_GRAMMAR, RUST_GRAMMAR};
use codeviz::extract::{last_segment_exec, line_from_row, make_symbol_id, starts_upper_exec};
use codeviz::order::{join_texts, lex_le_exec, sort_texts};
use codeviz::text::count_occurrences;
use codeviz::textops::{base_module_exec, cut_at_exec, trim_ws_exec};

fn chars(s: &str) -> Vec<char> {
    s.chars().collect()
}

fn text(v: Vec<char>) -> String {
    v.into_iter().collect()
}

#[test]
fn symbol_ids_segments_and_lines() {
    assert_eq!(make_symbol_id(&"src/a.py".to_string(), &"f".to_string()), "src/a.py::f");
    assert_eq!(last_segment_exec(&"src/lib/a.rs".to_string()), "a.rs");
    assert_eq!(last_segment_exec(&"a.rs".to_string()), "a.rs");
    assert_eq!(last_segment_exec(&"dir/".to_string()), "");
    assert_eq!(line_from_row(0), Some(1));
    assert_eq!(line_from_row(41), Some(42));
    assert_eq!(line_from_row(u32::MAX as usize - 1), Some(u32::MAX));
    assert_eq!(line_from_row(u32::MAX as usize), None);
    assert!(starts_upper_exec(&"Widget".to_string()));
    assert!(starts_upper_exec(&"Ärger".to_string()));
    assert!(!starts_upper_exec(&"widget".to_string()));
    assert!(!starts_upper_exec(&"".to_string()));
}

#[test]
fn trimming_cutting_and_modules() {
    assert_eq!(text(trim_ws_exec(&chars("  \t a b \n"))), "a b");
    assert_eq!(text(trim_ws_exec(&chars("\u{3000}x\u{a0}"))), "x");
    assert_eq!(text(trim_ws_exec(&chars("   "))), "");
    assert_eq!(text(cut_at_exec(&chars("a.b.c"), &chars("."))), "a");
    assert_eq!(text(cut_at_exec(&chars("abc"), &chars("::"))), "abc");
    assert_eq!(text(base_module_exec(&chars("std::collections::HashMap"))), "std::collections");
    assert_eq!(text(base_module_exec(&chars("std::collections"))), "std::collections");
    assert_eq!(text(base_module_exec(&chars("crate::ir::Node"))), "crate::ir");
    assert_eq!(text(base_module_exec(&chars("Node"))), "Node");
}

#[test]
fn ordering_and_joining() {
    assert!(lex_le_exec(&"abc".to_string(), &"abd".to_string()));
    assert!(lex_le_exec(&"ab".to_string(), &"abc".to_string()));
    assert!(!lex_le_exec(&"b".to_string(), &"abc".to_string()));
    let sorted = sort_texts(vec!["pear".to_string(), "apple".to_string(), "Zebra".to_string(), "apple".to_string()]);
    assert_eq!(sorted, vec!["Zebra", "apple", "apple", "pear"]);
    let mut expected = vec!["pear".to_string(), "apple".to_string(), "Zebra".to_string()];
    expected.sort();
    assert_eq!(sort_texts(vec!["pear".to_string(), "apple".to_string(), "Zebra".to_string()]), expected);
    assert_eq!(join_texts(&vec!["a".to_string(), "b".to_string(), "c".to_string()], ", "), "a, b, c");
    assert_eq!(join_texts(&vec![], ", "), "");
    assert_eq!(join_texts(&vec!["only".to_string()], "-"), "only");
}

#[test]
fn occurrences_are_counted_up_to_two() {
    let (count, first) = count_occurrences(&chars("abcabcab"), &chars("ab"));
    assert_eq!(count, 2);
    assert_eq!(first, 0);
    let (count, first) = count_occurrences(&chars("xxab"), &chars("ab"));
    assert_eq!(count, 1);
    assert_eq!(first, 2);
    let (count, _) = count_occurrences(&chars("xyz"), &chars("ab"));
    assert_eq!(count, 0);
}

#[test]
fn parse_bundled_copies_the_tree_of_each_bundled_grammar() {
    let py = parse_bundled(PYTHON_GRAMMAR, "x = 1\n").unwrap();
    assert_eq!(py.kind, "module");
    assert_eq!(py.text.as_deref(), Some("x = 1\n"));
    assert_eq!(py.children.len(), 1);
    assert_eq!(py.children[0].kind, "expression_statement");
    assert!(!py.has_error);
    let rs = parse_bundled(RUST_GRAMMAR, "fn main( {").unwrap();
    assert!(rs.has_error);
    for g in PYTHON_GRAMMAR..=LUA_GRAMMAR {
        assert!(parse_bundled(g, "").is_some());
    }
    assert!(parse_bundled(0, "").is_none());
    assert!(parse_bundled(LUA_GRAMMAR + 1, "").is_none());
}
