//! The grammar representation: programs, rules, vocabularies, sentences,
//! items and expressions, together with their mathematical views and the
//! structural invariants the parser establishes.

use vstd::prelude::*;
use crate::text::str_eq;

verus! {

/// A parsed grammar, ready for any number of generation runs.
#[derive(Debug)]
pub struct Ast {
    pub program: Program,
}

/// The rules and vocabularies of a grammar. Rule names are unique, as are
/// vocabulary names; lookups go by name.
#[derive(Debug)]
pub struct Program {
    pub rules: Vec<Rule>,
    pub vocabs: Vec<Vocab>,
}

/// A named unit of grammar: `let` bindings and weighted alternatives.
#[derive(Debug)]
pub struct Rule {
    pub name: String,
    pub sentences: Vec<Sentence>,
}

/// A table of word-form sets sharing the declared labels; the position of a
/// label in `labels` is the column it selects in every set.
#[derive(Debug)]
pub struct Vocab {
    pub name: String,
    pub labels: Vec<String>,
    pub sets: Vec<VocabSet>,
}

/// One weighted row of a vocabulary: one form per declared label.
#[derive(Debug)]
pub struct VocabSet {
    pub weight: u32,
    pub forms: Vec<String>,
}

/// One statement of a rule's body.
#[derive(Debug)]
pub enum Sentence {
    Let(Let),
    Choice(Choice),
}

/// Binds the value of an expression to a name for the rest of the rule.
#[derive(Debug)]
pub struct Let {
    pub ident: String,
    pub expr: Expr,
}

/// One weighted alternative of a rule's selection pool.
#[derive(Debug)]
pub struct Choice {
    pub weight: u32,
    pub items: Vec<Item>,
}

/// A fragment of a chosen alternative, included with probability
/// `prob` out of 100.
#[derive(Debug)]
pub struct Item {
    pub prob: u32,
    pub expr: Expr,
}

/// The atoms a sentence is built from.
#[derive(Debug)]
pub enum Expr {
    Variable(String),
    Literal(String),
    Rule(String),
    Vocab { name: String, label: String },
}

// --- mathematical views ------------------------------------------------

pub struct ProgramV {
    pub rules: Seq<RuleV>,
    pub vocabs: Seq<VocabV>,
}

pub struct RuleV {
    pub name: Seq<char>,
    pub sentences: Seq<SentenceV>,
}

pub struct VocabV {
    pub name: Seq<char>,
    pub labels: Seq<Seq<char>>,
    pub sets: Seq<VocabSetV>,
}

pub struct VocabSetV {
    pub weight: u32,
    pub forms: Seq<Seq<char>>,
}

pub enum SentenceV {
    Let(LetV),
    Choice(ChoiceV),
}

pub struct LetV {
    pub ident: Seq<char>,
    pub expr: ExprV,
}

pub struct ChoiceV {
    pub weight: u32,
    pub items: Seq<ItemV>,
}

pub struct ItemV {
    pub prob: u32,
    pub expr: ExprV,
}

pub enum ExprV {
    Variable(Seq<char>),
    Literal(Seq<char>),
    Rule(Seq<char>),
    Vocab { name: Seq<char>, label: Seq<char> },
}

impl View for Expr {
    type V = ExprV;

    open spec fn view(&self) -> ExprV {
        match self {
            Expr::Variable(n) => ExprV::Variable(n@),
            Expr::Literal(s) => ExprV::Literal(s@),
            Expr::Rule(n) => ExprV::Rule(n@),
            Expr::Vocab { name, label } => ExprV::Vocab { name: name@, label: label@ },
        }
    }
}

impl DeepView for Expr {
    type V = ExprV;

    open spec fn deep_view(&self) -> ExprV {
        self.view()
    }
}

impl View for Item {
    type V = ItemV;

    open spec fn view(&self) -> ItemV {
        ItemV { prob: self.prob, expr: self.expr@ }
    }
}

impl DeepView for Item {
    type V = ItemV;

    open spec fn deep_view(&self) -> ItemV {
        self.view()
    }
}

impl View for Choice {
    type V = ChoiceV;

    open spec fn view(&self) -> ChoiceV {
        ChoiceV { weight: self.weight, items: self.items.deep_view() }
    }
}

impl DeepView for Choice {
    type V = ChoiceV;

    open spec fn deep_view(&self) -> ChoiceV {
        self.view()
    }
}

impl View for Let {
    type V = LetV;

    open spec fn view(&self) -> LetV {
        LetV { ident: self.ident@, expr: self.expr@ }
    }
}

impl DeepView for Let {
    type V = LetV;

    open spec fn deep_view(&self) -> LetV {
        self.view()
    }
}

impl View for Sentence {
    type V = SentenceV;

    open spec fn view(&self) -> SentenceV {
        match self {
            Sentence::Let(l) => SentenceV::Let(l@),
            Sentence::Choice(c) => SentenceV::Choice(c@),
        }
    }
}

impl DeepView for Sentence {
    type V = SentenceV;

    open spec fn deep_view(&self) -> SentenceV {
        self.view()
    }
}

impl View for VocabSet {
    type V = VocabSetV;

    open spec fn view(&self) -> VocabSetV {
        VocabSetV { weight: self.weight, forms: self.forms.deep_view() }
    }
}

impl DeepView for VocabSet {
    type V = VocabSetV;

    open spec fn deep_view(&self) -> VocabSetV {
        self.view()
    }
}

impl View for Vocab {
    type V = VocabV;

    open spec fn view(&self) -> VocabV {
        VocabV { name: self.name@, labels: self.labels.deep_view(), sets: self.sets.deep_view() }
    }
}

impl DeepView for Vocab {
    type V = VocabV;

    open spec fn deep_view(&self) -> VocabV {
        self.view()
    }
}

impl View for Rule {
    type V = RuleV;

    open spec fn view(&self) -> RuleV {
        RuleV { name: self.name@, sentences: self.sentences.deep_view() }
    }
}

impl DeepView for Rule {
    type V = RuleV;

    open spec fn deep_view(&self) -> RuleV {
        self.view()
    }
}

impl View for Program {
    type V = ProgramV;

    open spec fn view(&self) -> ProgramV {
        ProgramV { rules: self.rules.deep_view(), vocabs: self.vocabs.deep_view() }
    }
}

impl DeepView for Program {
    type V = ProgramV;

    open spec fn deep_view(&self) -> ProgramV {
        self.view()
    }
}

impl View for Ast {
    type V = ProgramV;

    open spec fn view(&self) -> ProgramV {
        self.program@
    }
}

// --- structural invariants ---------------------------------------------

pub open spec fn has_rule(rs: Seq<RuleV>, name: Seq<char>) -> bool {
    exists|i: int| 0 <= i < rs.len() && #[trigger] rs[i].name == name
}

pub open spec fn has_vocab(vs: Seq<VocabV>, name: Seq<char>) -> bool {
    exists|i: int| 0 <= i < vs.len() && #[trigger] vs[i].name == name
}

pub open spec fn has_label(labels: Seq<Seq<char>>, l: Seq<char>) -> bool {
    exists|i: int| 0 <= i < labels.len() && #[trigger] labels[i] == l
}

/// The rule of that name, when there is one.
pub open spec fn lookup_rule(rs: Seq<RuleV>, name: Seq<char>) -> Option<RuleV> {
    if has_rule(rs, name) {
        Some(rs[choose|i: int| 0 <= i < rs.len() && #[trigger] rs[i].name == name])
    } else {
        None
    }
}

/// The vocabulary of that name, when there is one.
pub open spec fn lookup_vocab(vs: Seq<VocabV>, name: Seq<char>) -> Option<VocabV> {
    if has_vocab(vs, name) {
        Some(vs[choose|i: int| 0 <= i < vs.len() && #[trigger] vs[i].name == name])
    } else {
        None
    }
}

/// The column index of label `l`, when it is declared.
pub open spec fn label_index(labels: Seq<Seq<char>>, l: Seq<char>) -> Option<int> {
    if has_label(labels, l) {
        Some(choose|i: int| 0 <= i < labels.len() && #[trigger] labels[i] == l)
    } else {
        None
    }
}

pub open spec fn distinct_rule_names(rs: Seq<RuleV>) -> bool {
    forall|i: int, j: int| 0 <= i < j < rs.len() ==> rs[i].name != rs[j].name
}

pub open spec fn distinct_vocab_names(vs: Seq<VocabV>) -> bool {
    forall|i: int, j: int| 0 <= i < j < vs.len() ==> vs[i].name != vs[j].name
}

pub open spec fn distinct_labels(labels: Seq<Seq<char>>) -> bool {
    forall|i: int, j: int| 0 <= i < j < labels.len() ==> labels[i] != labels[j]
}

/// A vocabulary is well-formed when its labels are distinct and every set
/// supplies exactly one form per label.
pub open spec fn wf_vocab(v: VocabV) -> bool {
    &&& distinct_labels(v.labels)
    &&& forall|k: int| 0 <= k < v.sets.len() ==> #[trigger] v.sets[k].forms.len() == v.labels.len()
}

/// What the parser establishes of every program it returns.
pub open spec fn wf_program(p: ProgramV) -> bool {
    &&& distinct_rule_names(p.rules)
    &&& distinct_vocab_names(p.vocabs)
    &&& forall|k: int| 0 <= k < p.vocabs.len() ==> wf_vocab(#[trigger] p.vocabs[k])
}

// --- lookups ------------------------------------------------------------

/// Finds the rule named `name`, scanning in declaration order.
pub fn find_rule<'a>(rules: &'a Vec<Rule>, name: &str) -> (r: Option<&'a Rule>)
    ensures
        match r {
            Some(ru) => rules.deep_view().contains(ru@) && ru@.name == name@ && has_rule(
                rules.deep_view(),
                name@,
            ),
            None => !has_rule(rules.deep_view(), name@),
        },
{
    let n = rules.len();
    let mut i: usize = 0;
    while i < n
        invariant
            n == rules.len(),
            i <= n,
            forall|j: int| 0 <= j < i ==> rules.deep_view()[j].name != name@,
        decreases n - i,
    {
        if str_eq(rules[i].name.as_str(), name) {
            proof {
                assert(rules.deep_view()[i as int].name == name@);
                assert(rules.deep_view().contains(rules.deep_view()[i as int]));
            }
            return Some(&rules[i]);
        }
        i += 1;
    }
    None
}

/// Finds the vocabulary named `name`, scanning in declaration order.
pub fn find_vocab<'a>(vocabs: &'a Vec<Vocab>, name: &str) -> (r: Option<&'a Vocab>)
    ensures
        match r {
            Some(v) => vocabs.deep_view().contains(v@) && v@.name == name@ && has_vocab(
                vocabs.deep_view(),
                name@,
            ),
            None => !has_vocab(vocabs.deep_view(), name@),
        },
{
    let n = vocabs.len();
    let mut i: usize = 0;
    while i < n
        invariant
            n == vocabs.len(),
            i <= n,
            forall|j: int| 0 <= j < i ==> vocabs.deep_view()[j].name != name@,
        decreases n - i,
    {
        if str_eq(vocabs[i].name.as_str(), name) {
            proof {
                assert(vocabs.deep_view()[i as int].name == name@);
                assert(vocabs.deep_view().contains(vocabs.deep_view()[i as int]));
            }
            return Some(&vocabs[i]);
        }
        i += 1;
    }
    None
}

/// Finds the column index of label `l` among the declared labels.
pub fn find_label(labels: &Vec<String>, l: &str) -> (r: Option<usize>)
    ensures
        match r {
            Some(k) => k < labels.len() && labels.deep_view()[k as int] == l@ && has_label(
                labels.deep_view(),
                l@,
            ),
            None => !has_label(labels.deep_view(), l@),
        },
{
    let n = labels.len();
    let mut i: usize = 0;
    while i < n
        invariant
            n == labels.len(),
            i <= n,
            forall|j: int| 0 <= j < i ==> labels.deep_view()[j] != l@,
        decreases n - i,
    {
        if str_eq(labels[i].as_str(), l) {
            proof {
                assert(labels.deep_view()[i as int] == l@);
            }
            return Some(i);
        }
        i += 1;
    }
    None
}

impl Sentence {
    /// The binding, when this sentence is a `let`.
    pub fn get_let_ref(&self) -> (r: Option<&Let>)
        ensures
            match r {
                Some(l) => self@ == SentenceV::Let(l@),
                None => self@ is Choice,
            },
    {
        match self {
            Sentence::Let(l) => Some(l),
            Sentence::Choice(_) => None,
        }
    }

    /// The alternative, when this sentence is a `choice`.
    pub fn get_choice_ref(&self) -> (r: Option<&Choice>)
        ensures
            match r {
                Some(c) => self@ == SentenceV::Choice(c@),
                None => self@ is Let,
            },
    {
        match self {
            Sentence::Let(_) => None,
            Sentence::Choice(c) => Some(c),
        }
    }
}

} // verus!
