use textgen::ast::{Expr, Sentence};
use textgen::lexer::tokenize;
use textgen::parser::{Error, Parser};
use textgen::text::{parse_u32, str_eq};

#[test]
fn tokenize_words_and_symbols() {
    let toks = tokenize("rule main { choice 1 [name]; }");
    let expect = vec!["rule", "main", "{", "choice", "1", "[", "name", "]", ";", "}"];
    assert_eq!(toks, expect);
}

#[test]
fn tokenize_quoted_literal_is_three_tokens() {
    let toks = tokenize("\"hello world\"");
    assert_eq!(toks, vec!["\"", "hello world", "\""]);
}

#[test]
fn tokenize_empty_literal_is_two_adjacent_quotes() {
    let toks = tokenize("\"\"");
    assert_eq!(toks, vec!["\"", "\""]);
}

#[test]
fn tokenize_translates_newline_escape() {
    let toks = tokenize("\"a\\nb\"");
    assert_eq!(toks, vec!["\"", "a\nb", "\""]);
}

#[test]
fn tokenize_escaped_char_is_literal() {
    let toks = tokenize("\"a\\\"b\"");
    assert_eq!(toks, vec!["\"", "a\"b", "\""]);
}

#[test]
fn tokenize_whitespace_separates() {
    let toks = tokenize("a\tb\nc\rd e");
    assert_eq!(toks, vec!["a", "b", "c", "d", "e"]);
}

#[test]
fn tokenize_symbols_split_words() {
    let toks = tokenize("($x)?5%");
    assert_eq!(toks, vec!["(", "$", "x", ")", "?", "5", "%"]);
}

#[test]
fn str_eq_agrees_with_equality() {
    assert!(str_eq("abc", "abc"));
    assert!(!str_eq("abc", "abd"));
    assert!(!str_eq("abc", "ab"));
    assert!(str_eq("", ""));
}

#[test]
fn parse_u32_reads_decimal() {
    assert_eq!(parse_u32("0"), Some(0));
    assert_eq!(parse_u32("100"), Some(100));
    assert_eq!(parse_u32("4294967295"), Some(u32::MAX));
}

#[test]
fn parse_u32_rejects_bad_numerals() {
    assert_eq!(parse_u32(""), None);
    assert_eq!(parse_u32("12a"), None);
    assert_eq!(parse_u32("-3"), None);
    assert_eq!(parse_u32("4294967296"), None);
}

#[test]
fn parse_simple_rule() {
    let mut p = Parser::new("rule main { choice 2 \"hi\"; }");
    let ast = p.parse().expect("parse should succeed");
    assert_eq!(ast.program.rules.len(), 1);
    assert_eq!(ast.program.vocabs.len(), 0);
    let rule = &ast.program.rules[0];
    assert_eq!(rule.name, "main");
    assert_eq!(rule.sentences.len(), 1);
    match &rule.sentences[0] {
        Sentence::Choice(c) => {
            assert_eq!(c.weight, 2);
            assert_eq!(c.items.len(), 1);
            assert_eq!(c.items[0].prob, 100);
            match &c.items[0].expr {
                Expr::Literal(s) => assert_eq!(s, "hi"),
                other => panic!("expected a literal, got {:?}", other),
            }
        }
        other => panic!("expected a choice, got {:?}", other),
    }
}

#[test]
fn parse_all_expression_kinds() {
    let src = "rule main { let x \"v\"; choice 1 $x [other] (voc subj) ?30% \"tail\"; }";
    let mut p = Parser::new(src);
    let ast = p.parse().expect("parse should succeed");
    let rule = &ast.program.rules[0];
    assert_eq!(rule.sentences.len(), 2);
    match &rule.sentences[0] {
        Sentence::Let(l) => {
            assert_eq!(l.ident, "x");
            assert!(matches!(&l.expr, Expr::Literal(s) if s == "v"));
        }
        other => panic!("expected a let, got {:?}", other),
    }
    match &rule.sentences[1] {
        Sentence::Choice(c) => {
            assert_eq!(c.items.len(), 4);
            assert!(matches!(&c.items[0].expr, Expr::Variable(n) if n == "x"));
            assert!(matches!(&c.items[1].expr, Expr::Rule(n) if n == "other"));
            assert!(
                matches!(&c.items[2].expr, Expr::Vocab { name, label } if name == "voc" && label == "subj")
            );
            assert_eq!(c.items[3].prob, 30);
            assert!(matches!(&c.items[3].expr, Expr::Literal(s) if s == "tail"));
        }
        other => panic!("expected a choice, got {:?}", other),
    }
}

#[test]
fn parse_short_keywords() {
    let mut p = Parser::new("rule main { l x \"v\"; c 1 $x ; }");
    let ast = p.parse().expect("parse should succeed");
    assert_eq!(ast.program.rules[0].sentences.len(), 2);
}

#[test]
fn parse_empty_literal() {
    let mut p = Parser::new("rule main { choice 1 \"\"; }");
    let ast = p.parse().expect("parse should succeed");
    match &ast.program.rules[0].sentences[0] {
        Sentence::Choice(c) => {
            assert!(matches!(&c.items[0].expr, Expr::Literal(s) if s.is_empty()));
        }
        other => panic!("expected a choice, got {:?}", other),
    }
}

#[test]
fn parse_vocab_declaration() {
    let src = "vocab pron (subj obj) { set 1 \"she\" \"her\"; set 2 \"he\" \"him\"; }";
    let mut p = Parser::new(src);
    let ast = p.parse().expect("parse should succeed");
    assert_eq!(ast.program.vocabs.len(), 1);
    let v = &ast.program.vocabs[0];
    assert_eq!(v.name, "pron");
    assert_eq!(v.labels, vec!["subj".to_string(), "obj".to_string()]);
    assert_eq!(v.sets.len(), 2);
    assert_eq!(v.sets[0].weight, 1);
    assert_eq!(v.sets[0].forms, vec!["she".to_string(), "her".to_string()]);
    assert_eq!(v.sets[1].weight, 2);
}

#[test]
fn duplicate_rule_name_is_rejected() {
    let mut p = Parser::new("rule main { choice 1 \"a\"; } rule main { choice 1 \"b\"; }");
    let err = p.parse().expect_err("duplicate rule must fail");
    assert!(matches!(err, Error::ReDefinitionOfRule { name } if name == "main"));
}

#[test]
fn duplicate_vocab_name_is_rejected() {
    let src = "vocab v (a) { set 1 \"x\"; } vocab v (a) { set 1 \"y\"; }";
    let err = Parser::new(src).parse().expect_err("duplicate vocab must fail");
    assert!(matches!(err, Error::ReDefinitionOfVocab { name } if name == "v"));
}

#[test]
fn duplicate_label_is_rejected() {
    let err = Parser::new("vocab v (a a) { set 1 \"x\" \"y\"; }")
        .parse()
        .expect_err("duplicate label must fail");
    assert!(matches!(err, Error::ReDefinitionOfVocabForm { name } if name == "a"));
}

#[test]
fn set_with_too_few_forms_is_rejected() {
    let src = "vocab v (a b) { set 1 \"x\"; }";
    let err = Parser::new(src).parse().expect_err("short set must fail");
    assert!(matches!(err, Error::UnexpectedToken { .. }));
}

#[test]
fn unexpected_end_of_input() {
    let err = Parser::new("rule main {").parse().expect_err("must fail");
    assert!(matches!(err, Error::UnexpectedEof));
}

#[test]
fn unexpected_top_level_token() {
    let err = Parser::new("frobnicate").parse().expect_err("must fail");
    match err {
        Error::UnexpectedToken { expected, found } => {
            assert_eq!(expected, vec!["rule", "vocab"]);
            assert_eq!(found, "frobnicate");
        }
        other => panic!("expected an unexpected-token error, got {:?}", other),
    }
}

#[test]
fn malformed_weight_is_rejected() {
    let err = Parser::new("rule main { choice many \"a\"; }")
        .parse()
        .expect_err("must fail");
    assert!(matches!(err, Error::MalformedNumber { found } if found == "many"));
}

#[test]
fn overflowing_weight_is_rejected() {
    let err = Parser::new("rule main { choice 4294967296 \"a\"; }")
        .parse()
        .expect_err("must fail");
    assert!(matches!(err, Error::MalformedNumber { .. }));
}

#[test]
fn empty_source_parses_to_empty_program() {
    let ast = Parser::new("").parse().expect("empty source parses");
    assert_eq!(ast.program.rules.len(), 0);
    assert_eq!(ast.program.vocabs.len(), 0);
}

#[test]
fn parse_error_messages_are_exact() {
    let err = Parser::new("rule main { choice 1 \"a\"; } rule main { choice 1 \"b\"; }")
        .parse()
        .expect_err("must fail");
    assert_eq!(err.message(), "rule main re-defined.");
    let err = Parser::new("frobnicate").parse().expect_err("must fail");
    assert_eq!(
        err.message(),
        "unexpected token: expected one of [rule, vocab], found frobnicate"
    );
    let err = Parser::new("rule main {").parse().expect_err("must fail");
    assert_eq!(err.message(), "unexpected end of file");
    let err = Parser::new("rule main { choice many \"a\"; }").parse().expect_err("must fail");
    assert_eq!(err.message(), "invalid number: many");
}
