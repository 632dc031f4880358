use sptl_spi::sptl::{Parser, Tokenizer};

fn tokens(input: &str) -> Vec<String> {
    Tokenizer::new(input).tokenize()
}

fn strings(items: &[&str]) -> Vec<String> {
    items.iter().map(|s| s.to_string()).collect()
}

#[test]
fn tokens_are_the_words_between_white_space() {
    assert_eq!(tokens("field psi 8"), vec!["field", "psi", "8"]);
    assert_eq!(tokens("  field\tpsi\n\n8  "), vec!["field", "psi", "8"]);
    assert_eq!(tokens(""), Vec::<String>::new());
    assert_eq!(tokens(" \t\r\n"), Vec::<String>::new());
    assert_eq!(tokens("one"), vec!["one"]);
    assert_eq!(tokens("a\u{00a0}b\u{3000}c\u{2003}d"), vec!["a", "b", "c", "d"]);
}

#[test]
fn quotes_commas_and_brackets_are_stripped_from_both_ends() {
    assert_eq!(tokens("[1.0, 2.5, 3]"), vec!["1.0", "2.5", "3"]);
    assert_eq!(tokens("\"hello\", \"world\""), vec!["hello", "world"]);
    assert_eq!(tokens("[[\"x\"]],"), vec!["x"]);
    assert_eq!(tokens("a,b a\"b a[0]"), vec!["a,b", "a\"b", "a[0"]);
    assert_eq!(tokens("{ alpha: 0.1 }"), vec!["{", "alpha:", "0.1", "}"]);
}

#[test]
fn a_word_of_stripped_characters_gives_an_empty_token() {
    assert_eq!(tokens("= [ 1 ]"), vec!["=", "", "1", ""]);
    assert_eq!(tokens("\",[]\""), vec![""]);
}

#[test]
fn tokenizing_twice_gives_the_same_tokens() {
    let mut tokenizer = Tokenizer::new("project psi <- m");
    let first = tokenizer.tokenize();
    let second = tokenizer.tokenize();
    assert_eq!(first, second);
    assert_eq!(first, vec!["project", "psi", "<-", "m"]);
}

#[test]
fn next_reads_the_tokens_in_order() {
    let mut parser = Parser::new(strings(&["field", "psi", "8"]));
    assert_eq!(parser.peek(), Some("field"));
    assert_eq!(parser.peek(), Some("field"));
    assert_eq!(parser.next(), Some("field".to_string()));
    assert_eq!(parser.peek(), Some("psi"));
    assert_eq!(parser.next(), Some("psi".to_string()));
    assert_eq!(parser.next(), Some("8".to_string()));
    assert_eq!(parser.peek(), None);
    assert_eq!(parser.next(), None);
    assert_eq!(parser.next(), None);
}

#[test]
fn a_parser_without_tokens_gives_nothing() {
    let mut parser = Parser::new(Vec::new());
    assert_eq!(parser.peek(), None);
    assert_eq!(parser.next(), None);
    assert_eq!(parser.expect("="), None);
}

#[test]
fn expect_compares_without_regard_to_case() {
    let mut parser = Parser::new(strings(&["FIELD", "Trace", "=", "x"]));
    assert_eq!(parser.expect("field"), Some(()));
    assert_eq!(parser.expect("TRACE"), Some(()));
    assert_eq!(parser.expect("="), Some(()));
    assert_eq!(parser.expect("X"), Some(()));
    assert_eq!(parser.expect("x"), None);
}

#[test]
fn expect_passes_the_token_even_when_it_differs() {
    let mut parser = Parser::new(strings(&["a", "b", "c"]));
    assert_eq!(parser.expect("z"), None);
    assert_eq!(parser.peek(), Some("b"));
    assert_eq!(parser.expect("b"), Some(()));
    assert_eq!(parser.peek(), Some("c"));
}

#[test]
fn expect_follows_unicode_lower_case() {
    let mut parser = Parser::new(strings(&["ÄÖ", "Σ"]));
    assert_eq!(parser.expect("äö"), Some(()));
    assert_eq!(parser.expect("σ"), Some(()));
}

fn read(program: &str, numbers: &[&str]) -> (String, usize) {
    let tokens = tokens(program);
    let numeric: Vec<bool> = tokens.iter().map(|t| numbers.contains(&t.as_str())).collect();
    let mut parser = Parser::new(tokens);
    let statements = parser.parse(&numeric);
    (format!("{:?}", statements), parser.position())
}

#[test]
fn every_kind_of_statement_is_read() {
    let program = "\
FIELD psi 8
interpretation m = [ 0.5 1e3 ]
project psi <- m { alpha: 0.1 noise: 0.01 steps: 10 }
trace d = distance ( psi , m )
Meaning close = below ( d , 0.2 )
logcoherence psi
logmeaning close
expresssymbol foo into psi
modulate foo intensity 0.7
";
    let spaced: Vec<String> = program.split_whitespace().map(|t| t.to_string()).collect();
    let numeric: Vec<bool> =
        spaced.iter().map(|t| t.chars().next().map_or(false, |c| c.is_ascii_digit())).collect();
    let mut parser = Parser::new(spaced.clone());
    let statements = parser.parse(&numeric);
    assert_eq!(parser.position(), spaced.len());
    assert_eq!(
        format!("{:?}", statements),
        "[Field { name: \"psi\", size: 8 }, \
         Interpretation { name: \"m\", values: [\"0.5\", \"1e3\"] }, \
         Project { target: \"psi\", interp: \"m\", alpha: \"0.1\", noise: \"0.01\", steps: \"10\" }, \
         TraceDistance { name: \"d\", field: \"psi\", interp: \"m\" }, \
         Meaning { name: \"close\", trace: \"d\", threshold: \"0.2\" }, \
         LogCoherence(\"psi\"), LogMeaning(\"close\"), \
         ExpressSymbol { token: \"foo\", into_field: \"psi\" }, \
         Modulate { token: \"foo\", intensity: \"0.7\" }]"
    );
}

#[test]
fn reading_stops_at_the_first_statement_that_cannot_be_read() {
    let (statements, position) = read("field a 1 field b x field c 3", &[]);
    assert_eq!(statements, "[Field { name: \"a\", size: 1 }]");
    assert_eq!(position, 3);
    let (statements, position) = read("bogus field a 1", &[]);
    assert_eq!(statements, "[]");
    assert_eq!(position, 0);
    let (statements, position) = read("", &[]);
    assert_eq!(statements, "[]");
    assert_eq!(position, 0);
    let (statements, _) = read("logmeaning", &[]);
    assert_eq!(statements, "[]");
    let (statements, _) = read("modulate foo intensity much", &[]);
    assert_eq!(statements, "[]");
    let (statements, _) = read("modulate foo intensity 0.7", &[]);
    assert_eq!(statements, "[]");
    let (statements, _) = read("modulate foo intensity 0.7", &["0.7"]);
    assert_eq!(statements, "[Modulate { token: \"foo\", intensity: \"0.7\" }]");
    let (statements, _) = read("field a 18446744073709551616", &[]);
    assert_eq!(statements, "[]");
}

#[test]
fn a_list_of_values_ends_at_what_is_no_number() {
    let spaced = strings(&["interpretation", "m", "=", "[", "1", "2", "]", "logmeaning", "x"]);
    let numeric = vec![false, false, false, false, true, true, false, false, false];
    let mut parser = Parser::new(spaced);
    let statements = parser.parse(&numeric);
    assert_eq!(
        format!("{:?}", statements),
        "[Interpretation { name: \"m\", values: [\"1\", \"2\"] }, LogMeaning(\"x\")]"
    );
    let spaced = strings(&["interpretation", "m", "=", "[", "1", "x", "2", "]"]);
    let numeric = vec![false, false, false, false, true, false, true, false];
    let mut parser = Parser::new(spaced);
    let statements = parser.parse(&numeric);
    assert_eq!(format!("{:?}", statements), "[Interpretation { name: \"m\", values: [\"1\"] }]");
    assert_eq!(parser.position(), 5);
    let spaced = strings(&["interpretation", "m", "=", "[", "]", "]"]);
    let mut parser = Parser::new(spaced);
    let statements = parser.parse(&vec![true; 6]);
    assert_eq!(format!("{:?}", statements), "[Interpretation { name: \"m\", values: [] }]");
    assert_eq!(parser.position(), 5);
}

#[test]
fn the_marks_may_be_fewer_than_the_tokens() {
    let spaced = strings(&["modulate", "a", "b", "1"]);
    let mut parser = Parser::new(spaced.clone());
    assert!(parser.parse(&Vec::new()).is_empty());
    let mut parser = Parser::new(spaced);
    assert_eq!(parser.parse(&vec![false, false, false, true, true, true]).len(), 1);
}

#[test]
fn quoted_tokens_are_narrated_without_their_quotes() {
    let spaced = strings(&["narratereturn", "\"a\"", "\"\"b", "\"", "c", "\"d\""]);
    let mut parser = Parser::new(spaced);
    let statements = parser.parse(&Vec::new());
    assert_eq!(format!("{:?}", statements), "[NarrateReturn { tokens: [\"a\", \"b\", \"\"] }]");
    assert_eq!(parser.position(), 4);
    let mut parser = Parser::new(strings(&["NarrateReturn"]));
    let statements = parser.parse(&Vec::new());
    assert_eq!(format!("{:?}", statements), "[NarrateReturn { tokens: [] }]");
}

#[test]
fn a_label_need_only_start_the_token() {
    let spaced = strings(&[
        "project", "psi", "<-", "m", "{", "alpha:x", "1", "noise:", "2", "steps:::", "3", "}",
    ]);
    let numeric: Vec<bool> = spaced.iter().map(|t| t.parse::<u8>().is_ok()).collect();
    let mut parser = Parser::new(spaced.clone());
    assert_eq!(parser.parse(&numeric).len(), 1);
    let mut swapped = spaced.clone();
    swapped[5] = "Alpha:".to_string();
    let mut parser = Parser::new(swapped);
    assert_eq!(parser.parse(&numeric).len(), 0);
    let mut parser = Parser::new(spaced[..11].to_vec());
    assert_eq!(parser.parse(&numeric).len(), 0);
}

#[test]
fn a_single_statement_can_be_read() {
    let mut parser = Parser::new(strings(&["logmeaning", "x", "nonsense"]));
    let first = parser.parse_statement(&Vec::new());
    assert_eq!(format!("{:?}", first), "Some(LogMeaning(\"x\"))");
    assert_eq!(parser.position(), 2);
    assert!(parser.parse_statement(&Vec::new()).is_none());
    assert_eq!(parser.position(), 2);
    assert_eq!(parser.next(), Some("nonsense".to_string()));
    assert!(parser.parse_statement(&Vec::new()).is_none());
}
