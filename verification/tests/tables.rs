use sptl_spi::macros::MacroTable;
use sptl_spi::patterns::PatternTable;
use sptl_spi::variables::{SymbolicValue, VariableTable};

#[test]
fn a_macro_is_found_under_its_name() {
    let mut table = MacroTable::new();
    assert!(table.get("greet").is_none());
    table.define("greet", vec!["who".to_string(), "what".to_string()], "say $who $what".to_string());
    let found = table.get("greet").unwrap();
    assert_eq!(found.params, vec!["who", "what"]);
    assert_eq!(found.body, "say $who $what");
    assert!(table.get("Greet").is_none());
    assert!(table.get("").is_none());
}

#[test]
fn defining_a_macro_again_replaces_it() {
    let mut table = MacroTable::default();
    table.define("m", vec!["a".to_string()], "one".to_string());
    table.define("n", Vec::new(), "other".to_string());
    table.define("m", Vec::new(), "two".to_string());
    assert_eq!(table.get("m").unwrap().body, "two");
    assert!(table.get("m").unwrap().params.is_empty());
    assert_eq!(table.get("n").unwrap().body, "other");
}

#[test]
fn a_variable_holds_the_value_last_set() {
    let mut table = VariableTable::new();
    assert!(table.get("x").is_none());
    table.set("x", SymbolicValue::Token("foo".to_string()));
    table.set("y", SymbolicValue::Pattern("101".to_string()));
    match table.get("x") {
        Some(SymbolicValue::Token(t)) => assert_eq!(t, "foo"),
        _ => panic!("x holds a token"),
    }
    table.set(
        "x",
        SymbolicValue::Symbol { token: "bar".to_string(), pattern: "000".to_string() },
    );
    match table.get("x") {
        Some(SymbolicValue::Symbol { token, pattern }) => {
            assert_eq!(token, "bar");
            assert_eq!(pattern, "000");
        }
        _ => panic!("x holds a symbol"),
    }
    match table.get("y").cloned() {
        Some(SymbolicValue::Pattern(p)) => assert_eq!(p, "101"),
        _ => panic!("y holds a pattern"),
    }
    assert!(VariableTable::default().get("x").is_none());
}

fn patterns() -> PatternTable {
    let mut table = PatternTable::new();
    table.define("a", "101");
    table.define("long name", "0000");
    table.define("", "empty");
    table.define("nest", "[a]");
    table
}

#[test]
fn references_are_replaced_by_their_definitions() {
    let table = patterns();
    assert_eq!(table.expand_patterns("x [a] y"), "x 101 y");
    assert_eq!(table.expand_patterns("[a][a]"), "101101");
    assert_eq!(table.expand_patterns("[long name]!"), "0000!");
    assert_eq!(table.expand_patterns("[]"), "empty");
    assert_eq!(table.expand_patterns("no references"), "no references");
    assert_eq!(table.expand_patterns(""), "");
}

#[test]
fn an_unknown_reference_is_kept() {
    let table = patterns();
    assert_eq!(table.expand_patterns("[b] and [a]"), "[b] and 101");
    assert_eq!(table.expand_patterns("[A]"), "[A]");
    assert_eq!(PatternTable::default().expand_patterns("[a]"), "[a]");
}

#[test]
fn an_unclosed_reference_takes_the_rest_and_is_closed() {
    let table = patterns();
    assert_eq!(table.expand_patterns("x [b y"), "x [b y]");
    assert_eq!(table.expand_patterns("x [a"), "x 101");
    assert_eq!(table.expand_patterns("["), "empty");
    assert_eq!(PatternTable::new().expand_patterns("["), "[]");
}

#[test]
fn expansion_is_not_repeated_and_brackets_do_not_nest() {
    let table = patterns();
    assert_eq!(table.expand_patterns("[nest]"), "[a]");
    assert_eq!(table.expand_patterns("[[a]]"), "[[a]]");
    assert_eq!(table.expand_patterns("a]b"), "a]b");
    assert_eq!(table.expand_patterns("τ[a]τ"), "τ101τ");
}

#[test]
fn a_pattern_can_be_defined_again() {
    let mut table = patterns();
    table.define("a", "111");
    assert_eq!(table.expand_patterns("[a]"), "111");
}
