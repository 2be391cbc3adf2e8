//! The parser: a recursive-descent, single-token-lookahead consumer of the
//! token sequence that builds the grammar representation.
//!
//! The grammar, in the concrete syntax this parser accepts:
//!
//! - program  := (rule | vocab)*
//! - rule     := `rule` NAME `{` sentence* `}`
//! - vocab    := `vocab` NAME `(` LABEL* `)` `{` vocabset* `}`
//! - vocabset := `set` WEIGHT quoted{n} `;`  (one quoted form per label)
//! - sentence := (`let` | `l`) NAME expr `;`
//!             | (`choice` | `c`) WEIGHT item* `;`
//! - item     := `?` PROB `%` expr | expr
//! - expr     := `$` NAME | quoted | `[` NAME `]` | `(` VOCAB LABEL `)`
//! - quoted   := `"` BODY `"` | `"` `"`  (the empty literal has no body token)
//!
//! The whole parse is specified by the spec functions below (`sp_decls` and
//! its helpers), which read the token sequence exactly as the executable
//! parser does; every parse method is proved to return precisely what its
//! spec function says, errors included.

use vstd::prelude::*;
use crate::ast::{
    Ast, Choice, ChoiceV, Expr, ExprV, Item, ItemV, Let, LetV, Program, ProgramV, Rule, RuleV,
    Sentence, SentenceV, Vocab, VocabSet, VocabSetV, VocabV, distinct_labels, distinct_rule_names,
    distinct_vocab_names, find_label, find_rule, find_vocab, has_label, has_rule, has_vocab,
    wf_program, wf_vocab,
};
use crate::lexer::{tokenize, tokenize_spec};
use crate::text::{parse_u32, spec_parse_u32, str_eq};

verus! {

/// A parse failure, reported with what was expected and found.
#[derive(Debug)]
pub enum Error {
    /// The token stream ended where a token was required.
    UnexpectedEof,
    /// A token other than one of the acceptable ones was found.
    UnexpectedToken { expected: Vec<&'static str>, found: String },
    /// Two rules of the same name were declared.
    ReDefinitionOfRule { name: String },
    /// Two vocabularies of the same name were declared.
    ReDefinitionOfVocab { name: String },
    /// One vocabulary declared the same label twice.
    ReDefinitionOfVocabForm { name: String },
    /// A weight or probability position held no decimal `u32` numeral.
    MalformedNumber { found: String },
}

/// The mathematical view of a parse failure.
pub enum ErrorV {
    UnexpectedEof,
    UnexpectedToken { expected: Seq<Seq<char>>, found: Seq<char> },
    ReDefinitionOfRule { name: Seq<char> },
    ReDefinitionOfVocab { name: Seq<char> },
    ReDefinitionOfVocabForm { name: Seq<char> },
    MalformedNumber { found: Seq<char> },
}

impl View for Error {
    type V = ErrorV;

    open spec fn view(&self) -> ErrorV {
        match self {
            Error::UnexpectedEof => ErrorV::UnexpectedEof,
            Error::UnexpectedToken { expected, found } => ErrorV::UnexpectedToken {
                expected: expected.deep_view(),
                found: found@,
            },
            Error::ReDefinitionOfRule { name } => ErrorV::ReDefinitionOfRule { name: name@ },
            Error::ReDefinitionOfVocab { name } => ErrorV::ReDefinitionOfVocab { name: name@ },
            Error::ReDefinitionOfVocabForm { name } => ErrorV::ReDefinitionOfVocabForm {
                name: name@,
            },
            Error::MalformedNumber { found } => ErrorV::MalformedNumber { found: found@ },
        }
    }
}


/// The listed tokens joined with a comma and a space.
pub open spec fn joined_tokens(ts: Seq<Seq<char>>) -> Seq<char>
    decreases ts.len(),
{
    if ts.len() == 0 {
        Seq::empty()
    } else if ts.len() == 1 {
        ts[0]
    } else {
        joined_tokens(ts.drop_last()) + ", "@ + ts.last()
    }
}

/// The one-line description of a parse failure that `Error::message` returns.
pub open spec fn parse_error_text(e: ErrorV) -> Seq<char> {
    match e {
        ErrorV::UnexpectedEof => "unexpected end of file"@,
        ErrorV::UnexpectedToken { expected, found } => "unexpected token: expected one of ["@
            + joined_tokens(expected) + "], found "@ + found,
        ErrorV::ReDefinitionOfRule { name } => "rule "@ + name + " re-defined."@,
        ErrorV::ReDefinitionOfVocab { name } => "vocab "@ + name + " re-defined."@,
        ErrorV::ReDefinitionOfVocabForm { name } => "vocab form "@ + name + " re-defined."@,
        ErrorV::MalformedNumber { found } => "invalid number: "@ + found,
    }
}

impl Error {
    /// Describes the failure in one line.
    pub fn message(&self) -> (r: String)
        ensures
            r@ == parse_error_text(self@),
    {
        match self {
            Error::UnexpectedEof => String::from_str("unexpected end of file"),
            Error::UnexpectedToken { expected, found } => {
                let mut s = String::from_str("unexpected token: expected one of [");
                let n = expected.len();
                let mut i: usize = 0;
                proof {
                    assert(expected.deep_view().take(0) =~= Seq::<Seq<char>>::empty());
                    assert(s@ =~= "unexpected token: expected one of ["@ + joined_tokens(
                        expected.deep_view().take(0),
                    ));
                }
                while i < n
                    invariant
                        n == expected.len(),
                        i <= n,
                        s@ == "unexpected token: expected one of ["@ + joined_tokens(
                            expected.deep_view().take(i as int),
                        ),
                    decreases n - i,
                {
                    if i > 0 {
                        s.append(", ");
                    }
                    s.append(expected[i]);
                    i += 1;
                    proof {
                        assert(expected.deep_view().take(i as int).drop_last()
                            =~= expected.deep_view().take(i - 1));
                        if i == 1 {
                            assert(joined_tokens(expected.deep_view().take(1))
                                == expected.deep_view()[0]);
                            assert(Seq::<char>::empty() + expected.deep_view()[0]
                                =~= expected.deep_view()[0]);
                        }
                        assert(s@ =~= "unexpected token: expected one of ["@ + joined_tokens(
                            expected.deep_view().take(i as int),
                        ));
                    }
                }
                proof {
                    assert(expected.deep_view().take(n as int) =~= expected.deep_view());
                }
                s.append("], found ");
                s.append(found.as_str());
                proof {
                    assert(s@ =~= parse_error_text(self@));
                }
                s
            },
            Error::ReDefinitionOfRule { name } => {
                let mut s = String::from_str("rule ");
                s.append(name.as_str());
                s.append(" re-defined.");
                s
            },
            Error::ReDefinitionOfVocab { name } => {
                let mut s = String::from_str("vocab ");
                s.append(name.as_str());
                s.append(" re-defined.");
                s
            },
            Error::ReDefinitionOfVocabForm { name } => {
                let mut s = String::from_str("vocab form ");
                s.append(name.as_str());
                s.append(" re-defined.");
                s
            },
            Error::MalformedNumber { found } => {
                let mut s = String::from_str("invalid number: ");
                s.append(found.as_str());
                s
            },
        }
    }
}

/// The token sequence a parse reads.
pub type Toks = Seq<Seq<char>>;

// --- the reference parser, in specification land -------------------------

/// The next token, consumed.
pub open spec fn sp_next(toks: Toks, p: int) -> Result<(Seq<char>, int), ErrorV> {
    if 0 <= p < toks.len() {
        Ok((toks[p], p + 1))
    } else {
        Err(ErrorV::UnexpectedEof)
    }
}

/// The next token, consumed, which must be exactly `t`.
pub open spec fn sp_eat(toks: Toks, p: int, t: Seq<char>) -> Result<int, ErrorV> {
    if !(0 <= p < toks.len()) {
        Err(ErrorV::UnexpectedEof)
    } else if toks[p] == t {
        Ok(p + 1)
    } else {
        Err(ErrorV::UnexpectedToken { expected: seq![t], found: toks[p] })
    }
}

/// Whether the next token exists and is exactly `t` (nothing consumed).
pub open spec fn sp_predict(toks: Toks, p: int, t: Seq<char>) -> bool {
    0 <= p < toks.len() && toks[p] == t
}

/// A quoted literal: `"` body `"`, where two adjacent quote tokens hold
/// the empty string.
pub open spec fn sp_quoted(toks: Toks, p: int) -> Result<(Seq<char>, int), ErrorV> {
    match sp_eat(toks, p, "\""@) {
        Err(e) => Err(e),
        Ok(p1) => if sp_predict(toks, p1, "\""@) {
            Ok((Seq::empty(), p1 + 1))
        } else {
            match sp_next(toks, p1) {
                Err(e) => Err(e),
                Ok((body, p2)) => match sp_eat(toks, p2, "\""@) {
                    Err(e) => Err(e),
                    Ok(p3) => Ok((body, p3)),
                },
            }
        },
    }
}

/// An expression: variable, literal, rule reference or vocabulary reference.
pub open spec fn sp_expr(toks: Toks, p: int) -> Result<(ExprV, int), ErrorV> {
    if !(0 <= p < toks.len()) {
        Err(ErrorV::UnexpectedEof)
    } else {
        let t = toks[p];
        if t == "$"@ {
            match sp_next(toks, p + 1) {
                Err(e) => Err(e),
                Ok((name, p2)) => Ok((ExprV::Variable(name), p2)),
            }
        } else if t == "\""@ {
            match sp_quoted(toks, p) {
                Err(e) => Err(e),
                Ok((body, p2)) => Ok((ExprV::Literal(body), p2)),
            }
        } else if t == "["@ {
            match sp_next(toks, p + 1) {
                Err(e) => Err(e),
                Ok((name, p2)) => match sp_eat(toks, p2, "]"@) {
                    Err(e) => Err(e),
                    Ok(p3) => Ok((ExprV::Rule(name), p3)),
                },
            }
        } else if t == "("@ {
            match sp_next(toks, p + 1) {
                Err(e) => Err(e),
                Ok((name, p2)) => match sp_next(toks, p2) {
                    Err(e) => Err(e),
                    Ok((label, p3)) => match sp_eat(toks, p3, ")"@) {
                        Err(e) => Err(e),
                        Ok(p4) => Ok((ExprV::Vocab { name, label }, p4)),
                    },
                },
            }
        } else {
            Err(ErrorV::UnexpectedToken { expected: seq!["$"@, "\""@, "["@, "("@], found: t })
        }
    }
}

/// An item: an expression with an optional `? N %` inclusion-probability
/// prefix; without the prefix the probability is 100.
pub open spec fn sp_item(toks: Toks, p: int) -> Result<(ItemV, int), ErrorV> {
    if sp_predict(toks, p, "?"@) {
        match sp_next(toks, p + 1) {
            Err(e) => Err(e),
            Ok((w, p2)) => match spec_parse_u32(w) {
                None => Err(ErrorV::MalformedNumber { found: w }),
                Some(prob) => match sp_eat(toks, p2, "%"@) {
                    Err(e) => Err(e),
                    Ok(p3) => match sp_expr(toks, p3) {
                        Err(e) => Err(e),
                        Ok((expr, p4)) => Ok((ItemV { prob, expr }, p4)),
                    },
                },
            },
        }
    } else {
        match sp_expr(toks, p) {
            Err(e) => Err(e),
            Ok((expr, p2)) => Ok((ItemV { prob: 100, expr }, p2)),
        }
    }
}

/// The items of one `choice`, read until the `;` terminator (not consumed).
pub open spec fn sp_items(toks: Toks, p: int, acc: Seq<ItemV>) -> Result<
    (Seq<ItemV>, int),
    ErrorV,
>
    decreases toks.len() - p,
    via sp_items_dec
{
    if sp_predict(toks, p, ";"@) {
        Ok((acc, p))
    } else {
        match sp_item(toks, p) {
            Err(e) => Err(e),
            Ok((it, p2)) => sp_items(toks, p2, acc.push(it)),
        }
    }
}

/// A sentence: a `let` binding or a weighted `choice`, ended by `;`.
pub open spec fn sp_sentence(toks: Toks, p: int) -> Result<(SentenceV, int), ErrorV> {
    if !(0 <= p < toks.len()) {
        Err(ErrorV::UnexpectedEof)
    } else {
        let t = toks[p];
        if t == "let"@ || t == "l"@ {
            match sp_next(toks, p + 1) {
                Err(e) => Err(e),
                Ok((ident, p2)) => match sp_expr(toks, p2) {
                    Err(e) => Err(e),
                    Ok((expr, p3)) => match sp_eat(toks, p3, ";"@) {
                        Err(e) => Err(e),
                        Ok(p4) => Ok((SentenceV::Let(LetV { ident, expr }), p4)),
                    },
                },
            }
        } else if t == "choice"@ || t == "c"@ {
            match sp_next(toks, p + 1) {
                Err(e) => Err(e),
                Ok((w, p2)) => match spec_parse_u32(w) {
                    None => Err(ErrorV::MalformedNumber { found: w }),
                    Some(weight) => match sp_items(toks, p2, Seq::empty()) {
                        Err(e) => Err(e),
                        Ok((items, p3)) => match sp_eat(toks, p3, ";"@) {
                            Err(e) => Err(e),
                            Ok(p4) => Ok((SentenceV::Choice(ChoiceV { weight, items }), p4)),
                        },
                    },
                },
            }
        } else {
            Err(
                ErrorV::UnexpectedToken {
                    expected: seq!["let"@, "l"@, "choice"@, "c"@],
                    found: t,
                },
            )
        }
    }
}

/// A rule body's sentences, read until the `}` terminator (not consumed).
pub open spec fn sp_sentences(toks: Toks, p: int, acc: Seq<SentenceV>) -> Result<
    (Seq<SentenceV>, int),
    ErrorV,
>
    decreases toks.len() - p,
    via sp_sentences_dec
{
    if sp_predict(toks, p, "}"@) {
        Ok((acc, p))
    } else {
        match sp_sentence(toks, p) {
            Err(e) => Err(e),
            Ok((s, p2)) => sp_sentences(toks, p2, acc.push(s)),
        }
    }
}

/// A rule declaration.
pub open spec fn sp_rule(toks: Toks, p: int) -> Result<(RuleV, int), ErrorV> {
    match sp_eat(toks, p, "rule"@) {
        Err(e) => Err(e),
        Ok(p1) => match sp_next(toks, p1) {
            Err(e) => Err(e),
            Ok((name, p2)) => match sp_eat(toks, p2, "{"@) {
                Err(e) => Err(e),
                Ok(p3) => match sp_sentences(toks, p3, Seq::empty()) {
                    Err(e) => Err(e),
                    Ok((sentences, p4)) => match sp_eat(toks, p4, "}"@) {
                        Err(e) => Err(e),
                        Ok(p5) => Ok((RuleV { name, sentences }, p5)),
                    },
                },
            },
        },
    }
}

/// A vocabulary's labels, read until `)` (not consumed); a repeated label
/// is a re-definition error.
pub open spec fn sp_labels(toks: Toks, p: int, acc: Seq<Seq<char>>) -> Result<
    (Seq<Seq<char>>, int),
    ErrorV,
>
    decreases toks.len() - p,
{
    if sp_predict(toks, p, ")"@) {
        Ok((acc, p))
    } else if !(0 <= p < toks.len()) {
        Err(ErrorV::UnexpectedEof)
    } else if acc.contains(toks[p]) {
        Err(ErrorV::ReDefinitionOfVocabForm { name: toks[p] })
    } else {
        sp_labels(toks, p + 1, acc.push(toks[p]))
    }
}

/// `n` quoted forms, one per declared label.
pub open spec fn sp_forms(toks: Toks, p: int, n: nat, acc: Seq<Seq<char>>) -> Result<
    (Seq<Seq<char>>, int),
    ErrorV,
>
    decreases n,
{
    if n == 0 {
        Ok((acc, p))
    } else {
        match sp_quoted(toks, p) {
            Err(e) => Err(e),
            Ok((f, p2)) => sp_forms(toks, p2, (n - 1) as nat, acc.push(f)),
        }
    }
}

/// One vocabulary set: `set` WEIGHT and one quoted form per label.
pub open spec fn sp_vocabset(toks: Toks, p: int, n: nat) -> Result<(VocabSetV, int), ErrorV> {
    match sp_eat(toks, p, "set"@) {
        Err(e) => Err(e),
        Ok(p1) => match sp_next(toks, p1) {
            Err(e) => Err(e),
            Ok((w, p2)) => match spec_parse_u32(w) {
                None => Err(ErrorV::MalformedNumber { found: w }),
                Some(weight) => match sp_forms(toks, p2, n, Seq::empty()) {
                    Err(e) => Err(e),
                    Ok((forms, p3)) => match sp_eat(toks, p3, ";"@) {
                        Err(e) => Err(e),
                        Ok(p4) => Ok((VocabSetV { weight, forms }, p4)),
                    },
                },
            },
        },
    }
}

/// A vocabulary's sets, read until `}` (not consumed).
pub open spec fn sp_vocabsets(toks: Toks, p: int, n: nat, acc: Seq<VocabSetV>) -> Result<
    (Seq<VocabSetV>, int),
    ErrorV,
>
    decreases toks.len() - p,
    via sp_vocabsets_dec
{
    if sp_predict(toks, p, "}"@) {
        Ok((acc, p))
    } else {
        match sp_vocabset(toks, p, n) {
            Err(e) => Err(e),
            Ok((s, p2)) => sp_vocabsets(toks, p2, n, acc.push(s)),
        }
    }
}

/// A vocabulary declaration.
pub open spec fn sp_vocab(toks: Toks, p: int) -> Result<(VocabV, int), ErrorV> {
    match sp_eat(toks, p, "vocab"@) {
        Err(e) => Err(e),
        Ok(p1) => match sp_next(toks, p1) {
            Err(e) => Err(e),
            Ok((name, p2)) => match sp_eat(toks, p2, "("@) {
                Err(e) => Err(e),
                Ok(p3) => match sp_labels(toks, p3, Seq::empty()) {
                    Err(e) => Err(e),
                    Ok((labels, p4)) => match sp_eat(toks, p4, ")"@) {
                        Err(e) => Err(e),
                        Ok(p5) => match sp_eat(toks, p5, "{"@) {
                            Err(e) => Err(e),
                            Ok(p6) => match sp_vocabsets(toks, p6, labels.len(), Seq::empty()) {
                                Err(e) => Err(e),
                                Ok((sets, p7)) => match sp_eat(toks, p7, "}"@) {
                                    Err(e) => Err(e),
                                    Ok(p8) => Ok((VocabV { name, labels, sets }, p8)),
                                },
                            },
                        },
                    },
                },
            },
        },
    }
}

/// The top-level declarations, to the end of the token stream. A duplicate
/// rule or vocabulary name is a re-definition error.
pub open spec fn sp_decls(toks: Toks, p: int, rules: Seq<RuleV>, vocabs: Seq<VocabV>) -> Result<
    ProgramV,
    ErrorV,
>
    decreases toks.len() - p,
    via sp_decls_dec
{
    if !(0 <= p < toks.len()) {
        Ok(ProgramV { rules, vocabs })
    } else if toks[p] == "rule"@ {
        match sp_rule(toks, p) {
            Err(e) => Err(e),
            Ok((r, p2)) => if has_rule(rules, r.name) {
                Err(ErrorV::ReDefinitionOfRule { name: r.name })
            } else {
                sp_decls(toks, p2, rules.push(r), vocabs)
            },
        }
    } else if toks[p] == "vocab"@ {
        match sp_vocab(toks, p) {
            Err(e) => Err(e),
            Ok((v, p2)) => if has_vocab(vocabs, v.name) {
                Err(ErrorV::ReDefinitionOfVocab { name: v.name })
            } else {
                sp_decls(toks, p2, rules, vocabs.push(v))
            },
        }
    } else {
        Err(ErrorV::UnexpectedToken { expected: seq!["rule"@, "vocab"@], found: toks[p] })
    }
}

/// What parsing a whole source text returns.
pub open spec fn parse_spec(source: Seq<char>) -> Result<ProgramV, ErrorV> {
    sp_decls(tokenize_spec(source), 0, Seq::empty(), Seq::empty())
}

// --- progress of the reference parser ------------------------------------

proof fn lemma_sp_quoted_advance(toks: Toks, p: int)
    ensures
        sp_quoted(toks, p) matches Ok((f, p2)) ==> p < p2 <= toks.len(),
{
}

proof fn lemma_sp_expr_advance(toks: Toks, p: int)
    ensures
        sp_expr(toks, p) matches Ok((e, p2)) ==> p < p2 <= toks.len(),
{
    lemma_sp_quoted_advance(toks, p);
}

proof fn lemma_sp_item_advance(toks: Toks, p: int)
    ensures
        sp_item(toks, p) matches Ok((it, p2)) ==> p < p2 <= toks.len(),
{
    lemma_sp_expr_advance(toks, p);
    if sp_predict(toks, p, "?"@) {
        lemma_sp_expr_advance(toks, p + 2);
    }
}

#[via_fn]
proof fn sp_items_dec(toks: Toks, p: int, acc: Seq<ItemV>) {
    lemma_sp_item_advance(toks, p);
}

proof fn lemma_sp_items_advance(toks: Toks, p: int, acc: Seq<ItemV>)
    ensures
        sp_items(toks, p, acc) matches Ok((items, p2)) ==> p <= p2 < toks.len(),
    decreases toks.len() - p,
{
    if !sp_predict(toks, p, ";"@) {
        lemma_sp_item_advance(toks, p);
        if let Ok((it, pn)) = sp_item(toks, p) {
            lemma_sp_items_advance(toks, pn, acc.push(it));
        }
    }
}

proof fn lemma_sp_sentence_advance(toks: Toks, p: int)
    ensures
        sp_sentence(toks, p) matches Ok((s, p2)) ==> p < p2 <= toks.len(),
{
    lemma_sp_expr_advance(toks, p + 2);
    lemma_sp_items_advance(toks, p + 2, Seq::empty());
}

#[via_fn]
proof fn sp_sentences_dec(toks: Toks, p: int, acc: Seq<SentenceV>) {
    lemma_sp_sentence_advance(toks, p);
}

proof fn lemma_sp_sentences_advance(toks: Toks, p: int, acc: Seq<SentenceV>)
    ensures
        sp_sentences(toks, p, acc) matches Ok((ss, p2)) ==> p <= p2 < toks.len(),
    decreases toks.len() - p,
{
    if !sp_predict(toks, p, "}"@) {
        lemma_sp_sentence_advance(toks, p);
        if let Ok((s, pn)) = sp_sentence(toks, p) {
            lemma_sp_sentences_advance(toks, pn, acc.push(s));
        }
    }
}

proof fn lemma_sp_labels_advance(toks: Toks, p: int, acc: Seq<Seq<char>>)
    ensures
        sp_labels(toks, p, acc) matches Ok((ls, p2)) ==> p <= p2 < toks.len(),
    decreases toks.len() - p,
{
    if !sp_predict(toks, p, ")"@) && 0 <= p < toks.len() && !acc.contains(toks[p]) {
        lemma_sp_labels_advance(toks, p + 1, acc.push(toks[p]));
    }
}

proof fn lemma_sp_forms_advance(toks: Toks, p: int, n: nat, acc: Seq<Seq<char>>)
    ensures
        sp_forms(toks, p, n, acc) matches Ok((fs, p2)) ==> p <= p2 && (p <= toks.len() ==> p2
            <= toks.len()),
    decreases n,
{
    if n > 0 {
        lemma_sp_quoted_advance(toks, p);
        if let Ok((f, pn)) = sp_quoted(toks, p) {
            lemma_sp_forms_advance(toks, pn, (n - 1) as nat, acc.push(f));
        }
    }
}

proof fn lemma_sp_vocabset_advance(toks: Toks, p: int, n: nat)
    ensures
        sp_vocabset(toks, p, n) matches Ok((s, p2)) ==> p < p2 <= toks.len(),
{
    lemma_sp_forms_advance(toks, p + 2, n, Seq::empty());
}

#[via_fn]
proof fn sp_vocabsets_dec(toks: Toks, p: int, n: nat, acc: Seq<VocabSetV>) {
    lemma_sp_vocabset_advance(toks, p, n);
}

proof fn lemma_sp_vocabsets_advance(toks: Toks, p: int, n: nat, acc: Seq<VocabSetV>)
    ensures
        sp_vocabsets(toks, p, n, acc) matches Ok((ss, p2)) ==> p <= p2 < toks.len(),
    decreases toks.len() - p,
{
    if !sp_predict(toks, p, "}"@) {
        lemma_sp_vocabset_advance(toks, p, n);
        if let Ok((s, pn)) = sp_vocabset(toks, p, n) {
            lemma_sp_vocabsets_advance(toks, pn, n, acc.push(s));
        }
    }
}

proof fn lemma_sp_rule_advance(toks: Toks, p: int)
    ensures
        sp_rule(toks, p) matches Ok((r, p2)) ==> p < p2 <= toks.len(),
{
    lemma_sp_sentences_advance(toks, p + 3, Seq::empty());
}

proof fn lemma_sp_vocab_advance(toks: Toks, p: int)
    ensures
        sp_vocab(toks, p) matches Ok((v, p2)) ==> p < p2 <= toks.len(),
{
    lemma_sp_labels_advance(toks, p + 3, Seq::empty());
    if let Ok((labels, p4)) = sp_labels(toks, p + 3, Seq::empty()) {
        lemma_sp_vocabsets_advance(toks, p4 + 2, labels.len(), Seq::empty());
    }
}

#[via_fn]
proof fn sp_decls_dec(toks: Toks, p: int, rules: Seq<RuleV>, vocabs: Seq<VocabV>) {
    lemma_sp_rule_advance(toks, p);
    lemma_sp_vocab_advance(toks, p);
}

// --- the executable parser ------------------------------------------------

/// The parser's position in its token sequence.
pub struct ParserV {
    pub toks: Toks,
    pub pos: int,
}

/// Consumes a token sequence with single-token lookahead.
pub struct Parser {
    tokens: Vec<String>,
    pos: usize,
}

impl View for Parser {
    type V = ParserV;

    closed spec fn view(&self) -> ParserV {
        ParserV { toks: self.tokens.deep_view(), pos: self.pos as int }
    }
}

impl Parser {
    /// The position never runs past the end of the token sequence.
    pub open spec fn wf(&self) -> bool {
        self@.pos <= self@.toks.len()
    }

    /// Tokenizes `source` and stands ready to parse it from the beginning.
    pub fn new(source: &str) -> (p: Parser)
        ensures
            p@.toks == tokenize_spec(source@),
            p@.pos == 0,
            p.wf(),
    {
        Parser { tokens: tokenize(source), pos: 0 }
    }

    fn peek_token(&self) -> (r: Result<&String, Error>)
        ensures
            match r {
                Ok(t) => 0 <= self@.pos < self@.toks.len() && t@ == self@.toks[self@.pos],
                Err(e) => self@.pos >= self@.toks.len() && e@ == ErrorV::UnexpectedEof,
            },
    {
        if self.pos < self.tokens.len() {
            Ok(&self.tokens[self.pos])
        } else {
            Err(Error::UnexpectedEof)
        }
    }

    fn next_token(&mut self) -> (r: Result<String, Error>)
        requires
            old(self).wf(),
        ensures
            final(self).wf(),
            final(self)@.toks == old(self)@.toks,
            match r {
                Ok(t) => sp_next(old(self)@.toks, old(self)@.pos) == Ok::<_, ErrorV>((
                    t@,
                    final(self)@.pos,
                )),
                Err(e) => sp_next(old(self)@.toks, old(self)@.pos) == Err::<(Seq<char>, int), _>(
                    e@,
                ) && final(self)@ == old(self)@,
            },
    {
        if self.pos < self.tokens.len() {
            let t = self.tokens[self.pos].clone();
            self.pos = self.pos + 1;
            Ok(t)
        } else {
            Err(Error::UnexpectedEof)
        }
    }

    /// Whether the next token is exactly `expected`, consuming nothing.
    fn predict(&self, expected: &str) -> (r: bool)
        ensures
            r == sp_predict(self@.toks, self@.pos, expected@),
    {
        self.pos < self.tokens.len() && str_eq(self.tokens[self.pos].as_str(), expected)
    }

    /// Consumes the next token, which must be exactly `expected`.
    fn eat(&mut self, expected: &'static str) -> (r: Result<(), Error>)
        requires
            old(self).wf(),
        ensures
            final(self).wf(),
            final(self)@.toks == old(self)@.toks,
            match r {
                Ok(()) => sp_eat(old(self)@.toks, old(self)@.pos, expected@) == Ok::<_, ErrorV>(
                    final(self)@.pos,
                ),
                Err(e) => sp_eat(old(self)@.toks, old(self)@.pos, expected@) == Err::<int, _>(e@),
            },
    {
        if self.pos < self.tokens.len() {
            if str_eq(self.tokens[self.pos].as_str(), expected) {
                self.pos = self.pos + 1;
                Ok(())
            } else {
                let r = Error::UnexpectedToken {
                    expected: vec![expected],
                    found: self.tokens[self.pos].clone(),
                };
                proof {
                    assert(r@ matches ErrorV::UnexpectedToken { expected: ex, found } && ex
                        =~= seq![expected@]);
                }
                Err(r)
            }
        } else {
            Err(Error::UnexpectedEof)
        }
    }

    fn check_finished(&self) -> (r: bool)
        ensures
            r == (self@.pos >= self@.toks.len()),
    {
        self.pos >= self.tokens.len()
    }

    /// A quoted literal; two adjacent quote tokens are the empty string.
    fn parse_quoted(&mut self) -> (r: Result<String, Error>)
        requires
            old(self).wf(),
        ensures
            final(self).wf(),
            final(self)@.toks == old(self)@.toks,
            match r {
                Ok(s) => sp_quoted(old(self)@.toks, old(self)@.pos) == Ok::<_, ErrorV>((
                    s@,
                    final(self)@.pos,
                )),
                Err(e) => sp_quoted(old(self)@.toks, old(self)@.pos) == Err::<(Seq<char>, int), _>(
                    e@,
                ),
            },
    {
        self.eat("\"")?;
        if self.predict("\"") {
            self.eat("\"")?;
            let s = String::new();
            Ok(s)
        } else {
            let body = self.next_token()?;
            self.eat("\"")?;
            Ok(body)
        }
    }

    /// An expression: `$` NAME, a quoted literal, `[` NAME `]`, or
    /// `(` VOCAB LABEL `)`.
    fn parse_expr(&mut self) -> (r: Result<Expr, Error>)
        requires
            old(self).wf(),
        ensures
            final(self).wf(),
            final(self)@.toks == old(self)@.toks,
            match r {
                Ok(e) => sp_expr(old(self)@.toks, old(self)@.pos) == Ok::<_, ErrorV>((
                    e@,
                    final(self)@.pos,
                )),
                Err(e) => sp_expr(old(self)@.toks, old(self)@.pos) == Err::<(ExprV, int), _>(e@),
            },
    {
        let ghost toks = self@.toks;
        let ghost p = self@.pos;
        let t = self.next_token()?;
        if str_eq(t.as_str(), "$") {
            let name = self.next_token()?;
            Ok(Expr::Variable(name))
        } else if str_eq(t.as_str(), "\"") {
            if self.predict("\"") {
                self.eat("\"")?;
                let s = String::new();
                Ok(Expr::Literal(s))
            } else {
                let body = self.next_token()?;
                self.eat("\"")?;
                Ok(Expr::Literal(body))
            }
        } else if str_eq(t.as_str(), "[") {
            let name = self.next_token()?;
            self.eat("]")?;
            Ok(Expr::Rule(name))
        } else if str_eq(t.as_str(), "(") {
            let name = self.next_token()?;
            let label = self.next_token()?;
            self.eat(")")?;
            Ok(Expr::Vocab { name, label })
        } else {
            let r = Error::UnexpectedToken { expected: vec!["$", "\"", "[", "("], found: t };
            proof {
                assert(r@ matches ErrorV::UnexpectedToken { expected: ex, found } && ex
                    =~= seq!["$"@, "\""@, "["@, "("@]);
            }
            Err(r)
        }
    }

    /// An item: an expression, optionally prefixed `? N %` with its
    /// inclusion probability.
    fn parse_item(&mut self) -> (r: Result<Item, Error>)
        requires
            old(self).wf(),
        ensures
            final(self).wf(),
            final(self)@.toks == old(self)@.toks,
            match r {
                Ok(it) => sp_item(old(self)@.toks, old(self)@.pos) == Ok::<_, ErrorV>((
                    it@,
                    final(self)@.pos,
                )),
                Err(e) => sp_item(old(self)@.toks, old(self)@.pos) == Err::<(ItemV, int), _>(e@),
            },
    {
        if self.predict("?") {
            self.eat("?")?;
            let w = self.next_token()?;
            match parse_u32(w.as_str()) {
                None => Err(Error::MalformedNumber { found: w }),
                Some(prob) => {
                    self.eat("%")?;
                    let expr = self.parse_expr()?;
                    Ok(Item { prob, expr })
                },
            }
        } else {
            let expr = self.parse_expr()?;
            Ok(Item { prob: 100, expr })
        }
    }

    /// A sentence: a `let`/`l` binding or a `choice`/`c` alternative,
    /// terminated by `;`.
    #[verifier::loop_isolation(false)]
    fn parse_sentence(&mut self) -> (r: Result<Sentence, Error>)
        requires
            old(self).wf(),
        ensures
            final(self).wf(),
            final(self)@.toks == old(self)@.toks,
            match r {
                Ok(s) => sp_sentence(old(self)@.toks, old(self)@.pos) == Ok::<_, ErrorV>((
                    s@,
                    final(self)@.pos,
                )),
                Err(e) => sp_sentence(old(self)@.toks, old(self)@.pos) == Err::<
                    (SentenceV, int),
                    _,
                >(e@),
            },
    {
        let ghost toks = self@.toks;
        let ghost p0 = self@.pos;
        let t = self.next_token()?;
        if str_eq(t.as_str(), "let") || str_eq(t.as_str(), "l") {
            let ident = self.next_token()?;
            let expr = self.parse_expr()?;
            self.eat(";")?;
            Ok(Sentence::Let(Let { ident, expr }))
        } else if str_eq(t.as_str(), "choice") || str_eq(t.as_str(), "c") {
            let w = self.next_token()?;
            match parse_u32(w.as_str()) {
                None => Err(Error::MalformedNumber { found: w }),
                Some(weight) => {
                    let ghost p2 = self@.pos;
                    let mut items: Vec<Item> = Vec::new();
                    proof {
                        assert(items.deep_view() =~= Seq::<ItemV>::empty());
                    }
                    while !self.predict(";")
                        invariant
                            self.wf(),
                            self@.toks == toks,
                            sp_items(toks, p2, Seq::empty()) == sp_items(
                                toks,
                                self@.pos,
                                items.deep_view(),
                            ),
                        decreases toks.len() - self@.pos,
                    {
                        let ghost pc = self@.pos;
                        let ghost acc = items.deep_view();
                        let it = self.parse_item()?;
                        items.push(it);
                        proof {
                            lemma_sp_item_advance(toks, pc);
                            assert(items.deep_view() =~= acc.push(it@));
                        }
                    }
                    self.eat(";")?;
                    Ok(Sentence::Choice(Choice { weight, items }))
                },
            }
        } else {
            let r = Error::UnexpectedToken {
                expected: vec!["let", "l", "choice", "c"],
                found: t,
            };
            proof {
                assert(r@ matches ErrorV::UnexpectedToken { expected: ex, found } && ex
                    =~= seq!["let"@, "l"@, "choice"@, "c"@]);
            }
            Err(r)
        }
    }

    /// One vocabulary set: `set` WEIGHT and exactly `n` quoted forms.
    #[verifier::loop_isolation(false)]
    fn parse_vocabset(&mut self, n: usize) -> (r: Result<VocabSet, Error>)
        requires
            old(self).wf(),
        ensures
            final(self).wf(),
            final(self)@.toks == old(self)@.toks,
            match r {
                Ok(vs) => sp_vocabset(old(self)@.toks, old(self)@.pos, n as nat) == Ok::<
                    _,
                    ErrorV,
                >((vs@, final(self)@.pos)) && vs@.forms.len() == n,
                Err(e) => sp_vocabset(old(self)@.toks, old(self)@.pos, n as nat) == Err::<
                    (VocabSetV, int),
                    _,
                >(e@),
            },
    {
        let ghost toks = self@.toks;
        self.eat("set")?;
        let w = self.next_token()?;
        match parse_u32(w.as_str()) {
            None => Err(Error::MalformedNumber { found: w }),
            Some(weight) => {
                let ghost p2 = self@.pos;
                let mut forms: Vec<String> = Vec::new();
                let mut k: usize = 0;
                proof {
                    assert(forms.deep_view() =~= Seq::<Seq<char>>::empty());
                }
                while k < n
                    invariant
                        self.wf(),
                        self@.toks == toks,
                        k <= n,
                        forms.len() == k,
                        sp_forms(toks, p2, n as nat, Seq::empty()) == sp_forms(
                            toks,
                            self@.pos,
                            (n - k) as nat,
                            forms.deep_view(),
                        ),
                    decreases n - k,
                {
                    let ghost acc = forms.deep_view();
                    let f = self.parse_quoted()?;
                    forms.push(f);
                    k = k + 1;
                    proof {
                        assert(forms.deep_view() =~= acc.push(f@));
                    }
                }
                self.eat(";")?;
                Ok(VocabSet { weight, forms })
            },
        }
    }

    /// A rule declaration: `rule` NAME `{` sentence* `}`.
    #[verifier::loop_isolation(false)]
    fn parse_rule(&mut self) -> (r: Result<Rule, Error>)
        requires
            old(self).wf(),
        ensures
            final(self).wf(),
            final(self)@.toks == old(self)@.toks,
            match r {
                Ok(ru) => sp_rule(old(self)@.toks, old(self)@.pos) == Ok::<_, ErrorV>((
                    ru@,
                    final(self)@.pos,
                )),
                Err(e) => sp_rule(old(self)@.toks, old(self)@.pos) == Err::<(RuleV, int), _>(e@),
            },
    {
        let ghost toks = self@.toks;
        self.eat("rule")?;
        let name = self.next_token()?;
        self.eat("{")?;
        let ghost p3 = self@.pos;
        let mut sentences: Vec<Sentence> = Vec::new();
        proof {
            assert(sentences.deep_view() =~= Seq::<SentenceV>::empty());
        }
        while !self.predict("}")
            invariant
                self.wf(),
                self@.toks == toks,
                sp_sentences(toks, p3, Seq::empty()) == sp_sentences(
                    toks,
                    self@.pos,
                    sentences.deep_view(),
                ),
            decreases toks.len() - self@.pos,
        {
            let ghost pc = self@.pos;
            let ghost acc = sentences.deep_view();
            let s = self.parse_sentence()?;
            sentences.push(s);
            proof {
                lemma_sp_sentence_advance(toks, pc);
                assert(sentences.deep_view() =~= acc.push(s@));
            }
        }
        self.eat("}")?;
        Ok(Rule { name, sentences })
    }

    /// A vocabulary declaration: `vocab` NAME `(` LABEL* `)` `{` set* `}`.
    #[verifier::loop_isolation(false)]
    fn parse_vocab(&mut self) -> (r: Result<Vocab, Error>)
        requires
            old(self).wf(),
        ensures
            final(self).wf(),
            final(self)@.toks == old(self)@.toks,
            match r {
                Ok(v) => sp_vocab(old(self)@.toks, old(self)@.pos) == Ok::<_, ErrorV>((
                    v@,
                    final(self)@.pos,
                )) && wf_vocab(v@),
                Err(e) => sp_vocab(old(self)@.toks, old(self)@.pos) == Err::<(VocabV, int), _>(e@),
            },
    {
        let ghost toks = self@.toks;
        self.eat("vocab")?;
        let name = self.next_token()?;
        self.eat("(")?;
        let ghost p3 = self@.pos;
        let mut labels: Vec<String> = Vec::new();
        proof {
            assert(labels.deep_view() =~= Seq::<Seq<char>>::empty());
        }
        while !self.predict(")")
            invariant
                self.wf(),
                self@.toks == toks,
                distinct_labels(labels.deep_view()),
                sp_labels(toks, p3, Seq::empty()) == sp_labels(
                    toks,
                    self@.pos,
                    labels.deep_view(),
                ),
            decreases toks.len() - self@.pos,
        {
            let ghost acc = labels.deep_view();
            let l = self.next_token()?;
            if let Some(_) = find_label(&labels, l.as_str()) {
                proof {
                    assert(acc.contains(l@));
                }
                return Err(Error::ReDefinitionOfVocabForm { name: l });
            }
            proof {
                assert(!acc.contains(l@)) by {
                    if acc.contains(l@) {
                        assert(has_label(acc, l@));
                    }
                }
            }
            labels.push(l);
            proof {
                assert(labels.deep_view() =~= acc.push(l@));
            }
        }
        self.eat(")")?;
        self.eat("{")?;
        let n = labels.len();
        let ghost p6 = self@.pos;
        let mut sets: Vec<VocabSet> = Vec::new();
        proof {
            assert(sets.deep_view() =~= Seq::<VocabSetV>::empty());
        }
        while !self.predict("}")
            invariant
                self.wf(),
                self@.toks == toks,
                n == labels.len(),
                forall|k: int|
                    0 <= k < sets.deep_view().len() ==> #[trigger] sets.deep_view()[k].forms.len()
                        == n,
                sp_vocabsets(toks, p6, n as nat, Seq::empty()) == sp_vocabsets(
                    toks,
                    self@.pos,
                    n as nat,
                    sets.deep_view(),
                ),
            decreases toks.len() - self@.pos,
        {
            let ghost pc = self@.pos;
            let ghost acc = sets.deep_view();
            let s = self.parse_vocabset(n)?;
            sets.push(s);
            proof {
                lemma_sp_vocabset_advance(toks, pc, n as nat);
                assert(sets.deep_view() =~= acc.push(s@));
            }
        }
        self.eat("}")?;
        let v = Vocab { name, labels, sets };
        proof {
            assert(wf_vocab(v@));
        }
        Ok(v)
    }

    /// The top-level declarations, to the end of the token stream.
    #[verifier::loop_isolation(false)]
    #[verifier::rlimit(30)]
    fn parse_program(&mut self) -> (r: Result<Program, Error>)
        requires
            old(self).wf(),
        ensures
            final(self).wf(),
            final(self)@.toks == old(self)@.toks,
            match r {
                Ok(prog) => sp_decls(old(self)@.toks, old(self)@.pos, Seq::empty(), Seq::empty())
                    == Ok::<_, ErrorV>(prog@) && wf_program(prog@),
                Err(e) => sp_decls(old(self)@.toks, old(self)@.pos, Seq::empty(), Seq::empty())
                    == Err::<ProgramV, _>(e@),
            },
    {
        let ghost toks = self@.toks;
        let ghost p0 = self@.pos;
        let mut rules: Vec<Rule> = Vec::new();
        let mut vocabs: Vec<Vocab> = Vec::new();
        proof {
            assert(rules.deep_view() =~= Seq::<RuleV>::empty());
            assert(vocabs.deep_view() =~= Seq::<VocabV>::empty());
        }
        while !self.check_finished()
            invariant
                self.wf(),
                self@.toks == toks,
                distinct_rule_names(rules.deep_view()),
                distinct_vocab_names(vocabs.deep_view()),
                forall|k: int|
                    0 <= k < vocabs.deep_view().len() ==> wf_vocab(#[trigger] vocabs.deep_view()[k]),
                sp_decls(toks, p0, Seq::empty(), Seq::empty()) == sp_decls(
                    toks,
                    self@.pos,
                    rules.deep_view(),
                    vocabs.deep_view(),
                ),
            decreases toks.len() - self@.pos,
        {
            let ghost pc = self@.pos;
            if self.predict("rule") {
                let ghost acc = rules.deep_view();
                let ru = self.parse_rule()?;
                if let Some(_) = find_rule(&rules, ru.name.as_str()) {
                    return Err(Error::ReDefinitionOfRule { name: ru.name });
                }
                rules.push(ru);
                proof {
                    lemma_sp_rule_advance(toks, pc);
                    assert(rules.deep_view() =~= acc.push(ru@));
                    assert(distinct_rule_names(rules.deep_view()));
                }
            } else if self.predict("vocab") {
                let ghost acc = vocabs.deep_view();
                let v = self.parse_vocab()?;
                if let Some(_) = find_vocab(&vocabs, v.name.as_str()) {
                    return Err(Error::ReDefinitionOfVocab { name: v.name });
                }
                vocabs.push(v);
                proof {
                    lemma_sp_vocab_advance(toks, pc);
                    assert(vocabs.deep_view() =~= acc.push(v@));
                    assert(distinct_vocab_names(vocabs.deep_view()));
                }
            } else {
                let found = match self.peek_token() {
                    Ok(t) => t.clone(),
                    Err(e) => {
                        return Err(e);
                    },
                };
                let r = Error::UnexpectedToken { expected: vec!["rule", "vocab"], found };
                proof {
                    assert(r@ matches ErrorV::UnexpectedToken { expected: ex, found } && ex
                        =~= seq!["rule"@, "vocab"@]);
                }
                return Err(r);
            }
        }
        Ok(Program { rules, vocabs })
    }

    /// Parses the token stream into a grammar. On success the result is
    /// exactly what the reference specification `sp_decls` names for this
    /// token sequence, and it is well-formed; on failure the error is
    /// exactly the one the specification names.
    pub fn parse(&mut self) -> (r: Result<Ast, Error>)
        requires
            old(self).wf(),
        ensures
            final(self).wf(),
            final(self)@.toks == old(self)@.toks,
            match r {
                Ok(ast) => sp_decls(old(self)@.toks, old(self)@.pos, Seq::empty(), Seq::empty())
                    == Ok::<_, ErrorV>(ast@) && wf_program(ast@),
                Err(e) => sp_decls(old(self)@.toks, old(self)@.pos, Seq::empty(), Seq::empty())
                    == Err::<ProgramV, _>(e@),
            },
    {
        let program = self.parse_program()?;
        Ok(Ast { program })
    }
}

} // verus!

