use textgen::ast::Ast;
use textgen::generator::{weighted_pick, GenError};
use textgen::parser::Parser;
use textgen::rng::RandSource;

const FUEL: u32 = 64;

fn parse(src: &str) -> Ast {
    Parser::new(src).parse().expect("test grammar must parse")
}

#[test]
fn literal_rule_always_generates_the_literal() {
    let ast = parse("rule main { choice 1 \"x\"; }");
    for seed in 0..100 {
        let mut rng = RandSource::seeded(seed);
        let out = ast.generate(&mut rng, FUEL).expect("generation succeeds");
        assert_eq!(out, "x");
    }
}

#[test]
fn items_concatenate_in_order() {
    let ast = parse("rule main { choice 1 \"a\" \"b\" \"c\"; }");
    let mut rng = RandSource::seeded(7);
    assert_eq!(ast.generate(&mut rng, FUEL).unwrap(), "abc");
}

#[test]
fn let_binding_is_visible_in_the_same_rule() {
    let ast = parse("rule main { let x \"v\"; choice 1 $x $x ; }");
    let mut rng = RandSource::seeded(3);
    assert_eq!(ast.generate(&mut rng, FUEL).unwrap(), "vv");
}

#[test]
fn let_binding_does_not_leak_into_called_rule() {
    let ast = parse("rule main { let x \"v\"; choice 1 [inner]; } rule inner { choice 1 $x ; }");
    let mut rng = RandSource::seeded(3);
    let err = ast.generate(&mut rng, FUEL).expect_err("must fail");
    assert!(matches!(err, GenError::UndeclaredVariable { name } if name == "x"));
}

#[test]
fn missing_entry_rule() {
    let ast = parse("rule other { choice 1 \"a\"; }");
    let mut rng = RandSource::seeded(0);
    let err = ast.generate(&mut rng, FUEL).expect_err("must fail");
    assert!(matches!(err, GenError::UndefinedEntry));
}

#[test]
fn duplicate_variable_binding() {
    let ast = parse("rule main { let x \"a\"; let x \"b\"; choice 1 $x ; }");
    let mut rng = RandSource::seeded(0);
    let err = ast.generate(&mut rng, FUEL).expect_err("must fail");
    assert!(matches!(err, GenError::DuplicateVariable { name } if name == "x"));
}

#[test]
fn undeclared_rule_reference() {
    let ast = parse("rule main { choice 1 [ghostly]; }");
    let mut rng = RandSource::seeded(0);
    let err = ast.generate(&mut rng, FUEL).expect_err("must fail");
    assert!(matches!(err, GenError::UndeclaredRule { name } if name == "ghostly"));
}

#[test]
fn undeclared_vocab_reference() {
    let ast = parse("rule main { choice 1 (nouns subj); }");
    let mut rng = RandSource::seeded(0);
    let err = ast.generate(&mut rng, FUEL).expect_err("must fail");
    assert!(matches!(err, GenError::UndeclaredVocab { name } if name == "nouns"));
}

#[test]
fn undeclared_vocab_form() {
    let ast = parse(
        "vocab pron (subj) { set 1 \"she\"; } rule main { choice 1 (pron obj); }",
    );
    let mut rng = RandSource::seeded(0);
    let err = ast.generate(&mut rng, FUEL).expect_err("must fail");
    assert!(matches!(err, GenError::UndeclaredForm { name } if name == "obj"));
}

#[test]
fn zero_weight_pool_is_an_error() {
    let ast = parse("rule main { choice 0 \"a\"; choice 0 \"b\"; }");
    let mut rng = RandSource::seeded(0);
    let err = ast.generate(&mut rng, FUEL).expect_err("must fail");
    assert!(matches!(err, GenError::EmptyPool));
}

#[test]
fn rule_without_choices_is_an_error() {
    let ast = parse("rule main { let x \"v\"; }");
    let mut rng = RandSource::seeded(0);
    let err = ast.generate(&mut rng, FUEL).expect_err("must fail");
    assert!(matches!(err, GenError::EmptyPool));
}

#[test]
fn zero_weight_vocab_pool_is_an_error() {
    let ast = parse("vocab v (a) { set 0 \"x\"; } rule main { choice 1 (v a); }");
    let mut rng = RandSource::seeded(0);
    let err = ast.generate(&mut rng, FUEL).expect_err("must fail");
    assert!(matches!(err, GenError::EmptyPool));
}

#[test]
fn unbounded_recursion_hits_the_depth_limit() {
    let ast = parse("rule main { choice 1 [main]; }");
    let mut rng = RandSource::seeded(0);
    let err = ast.generate(&mut rng, 5).expect_err("must fail");
    assert!(matches!(err, GenError::RecursionLimit));
}

#[test]
fn zero_weight_choice_is_never_selected() {
    let ast = parse("rule main { choice 0 \"never\"; choice 1 \"always\"; }");
    for seed in 0..200 {
        let mut rng = RandSource::seeded(seed);
        assert_eq!(ast.generate(&mut rng, FUEL).unwrap(), "always");
    }
}

#[test]
fn generation_leaves_the_program_reusable() {
    let ast = parse("rule main { choice 1 \"x\"; }");
    let mut rng = RandSource::seeded(1);
    for _ in 0..10 {
        assert_eq!(ast.generate(&mut rng, FUEL).unwrap(), "x");
    }
}

#[test]
fn end_to_end_two_names() {
    let ast = parse(
        "rule main { choice 1 \"hello \" [name]; } \
         rule name { choice 1 \"alice\"; choice 1 \"bob\"; }",
    );
    let mut rng = RandSource::seeded(42);
    let trials = 2000;
    let mut alice = 0;
    let mut bob = 0;
    for _ in 0..trials {
        let out = ast.generate(&mut rng, FUEL).expect("generation succeeds");
        match out.as_str() {
            "hello alice" => alice += 1,
            "hello bob" => bob += 1,
            other => panic!("impossible output {:?}", other),
        }
    }
    assert_eq!(alice + bob, trials);
    let share = alice as f64 / trials as f64;
    assert!(share > 0.4 && share < 0.6, "alice share was {}", share);
}

#[test]
fn weighted_choice_frequencies_follow_weights() {
    let ast = parse("rule main { choice 1 \"a\"; choice 3 \"b\"; }");
    let mut rng = RandSource::seeded(9);
    let trials = 4000;
    let mut b = 0;
    for _ in 0..trials {
        if ast.generate(&mut rng, FUEL).unwrap() == "b" {
            b += 1;
        }
    }
    let share = b as f64 / trials as f64;
    assert!(share > 0.70 && share < 0.80, "b share was {}", share);
}

#[test]
fn item_inclusion_frequency_follows_probability() {
    let ast = parse("rule main { choice 1 ?30% \"x\" \"y\"; }");
    let mut rng = RandSource::seeded(11);
    let trials = 4000;
    let mut with_x = 0;
    for _ in 0..trials {
        let out = ast.generate(&mut rng, FUEL).unwrap();
        assert!(out == "xy" || out == "y");
        if out == "xy" {
            with_x += 1;
        }
    }
    let share = with_x as f64 / trials as f64;
    assert!(share > 0.25 && share < 0.35, "inclusion share was {}", share);
}

#[test]
fn items_are_included_independently() {
    let ast = parse("rule main { choice 1 ?50% \"a\" ?50% \"b\"; }");
    let mut rng = RandSource::seeded(13);
    let trials = 4000;
    let mut both = 0;
    let mut a_only = 0;
    let mut b_only = 0;
    let mut neither = 0;
    for _ in 0..trials {
        match ast.generate(&mut rng, FUEL).unwrap().as_str() {
            "ab" => both += 1,
            "a" => a_only += 1,
            "b" => b_only += 1,
            "" => neither += 1,
            other => panic!("impossible output {:?}", other),
        }
    }
    for count in [both, a_only, b_only, neither] {
        let share = count as f64 / trials as f64;
        assert!(share > 0.18 && share < 0.32, "joint share was {}", share);
    }
}

#[test]
fn single_set_vocab_never_mixes_forms() {
    let ast = parse(
        "vocab pron (subj obj) { set 1 \"she\" \"her\"; } \
         rule main { choice 1 (pron subj) \"-\" (pron obj); }",
    );
    for seed in 0..100 {
        let mut rng = RandSource::seeded(seed);
        assert_eq!(ast.generate(&mut rng, FUEL).unwrap(), "she-her");
    }
}

#[test]
fn separate_references_may_pick_different_sets() {
    let ast = parse(
        "vocab pron (subj obj) { set 1 \"she\" \"her\"; set 1 \"he\" \"him\"; } \
         rule main { choice 1 (pron subj) \"-\" (pron obj); }",
    );
    let mut rng = RandSource::seeded(5);
    let mut seen_mixed = false;
    let mut seen: Vec<String> = Vec::new();
    for _ in 0..500 {
        let out = ast.generate(&mut rng, FUEL).unwrap();
        assert!(
            out == "she-her" || out == "she-him" || out == "he-her" || out == "he-him",
            "impossible output {:?}",
            out
        );
        if out == "she-him" || out == "he-her" {
            seen_mixed = true;
        }
        if !seen.contains(&out) {
            seen.push(out);
        }
    }
    assert!(seen_mixed, "two references never picked different sets; saw {:?}", seen);
}

#[test]
fn weighted_pick_scans_prefix_sums() {
    let ws = vec![2u32, 3, 0, 5];
    assert_eq!(weighted_pick(&ws, 0), 0);
    assert_eq!(weighted_pick(&ws, 1), 0);
    assert_eq!(weighted_pick(&ws, 2), 1);
    assert_eq!(weighted_pick(&ws, 4), 1);
    assert_eq!(weighted_pick(&ws, 5), 3);
    assert_eq!(weighted_pick(&ws, 9), 3);
}

#[test]
fn vocab_set_returns_the_indexed_form() {
    let ast = parse("vocab v (a b) { set 1 \"x\" \"y\"; }");
    let set = &ast.program.vocabs[0].sets[0];
    assert_eq!(set.generate(0).unwrap(), "x");
    assert_eq!(set.generate(1).unwrap(), "y");
}

#[test]
fn sentence_accessors_split_variants() {
    let ast = parse("rule main { let x \"v\"; choice 1 $x ; }");
    let sents = &ast.program.rules[0].sentences;
    assert!(sents[0].get_let_ref().is_some());
    assert!(sents[0].get_choice_ref().is_none());
    assert!(sents[1].get_let_ref().is_none());
    assert!(sents[1].get_choice_ref().is_some());
}

#[test]
fn generation_error_messages_are_exact() {
    let ast = parse("rule other { choice 1 \"a\"; }");
    let mut rng = RandSource::seeded(0);
    let err = ast.generate(&mut rng, FUEL).expect_err("must fail");
    assert_eq!(err.message(), "`main` rule is not defined.");

    let ast = parse("rule main { choice 1 [ghostly]; }");
    let err = ast.generate(&mut rng, FUEL).expect_err("must fail");
    assert_eq!(err.message(), "undeclared rule: ghostly");
}
