//! The generator: walks a parsed grammar from its entry rule, resolving
//! variable bindings, rule references and vocabulary references, and
//! performing weighted random expansion.
//!
//! Randomness makes a run nondeterministic, so the contracts here are
//! possible-outcome contracts: the spec predicates (`rule_out` and friends)
//! name exactly the set of results — successes and errors alike — that the
//! weighted-expansion semantics permits, and every generation function is
//! proved to return one of them. Where the semantics permits only one
//! result, the contract pins the run down completely (see the proof
//! functions at the end of this module).

use vstd::prelude::*;
use crate::ast::{
    Ast, Choice, ChoiceV, Expr, ExprV, ItemV, LetV, Program, ProgramV, Rule, RuleV,
    SentenceV, VocabSet, VocabSetV, VocabV, find_label, find_rule, find_vocab, has_label, has_rule,
    has_vocab, label_index, lookup_rule, lookup_vocab, wf_program, wf_vocab,
};
use crate::rng::RandSource;
use crate::text::str_eq;

verus! {

/// A generation failure. Undefined names are only discovered here: the
/// parser defers all name resolution to generation time.
#[derive(Debug)]
pub enum GenError {
    /// No rule of the entry name is defined.
    UndefinedEntry,
    /// One rule binds the same variable twice.
    DuplicateVariable { name: String },
    /// A `$name` reference to a variable the current rule never bound.
    UndeclaredVariable { name: String },
    /// A `[name]` reference to a rule the program does not define.
    UndeclaredRule { name: String },
    /// A `(name label)` reference to a vocabulary the program does not define.
    UndeclaredVocab { name: String },
    /// A `(vocab label)` reference to a label the vocabulary does not declare.
    UndeclaredForm { name: String },
    /// A choice pool or vocabulary with zero total weight.
    EmptyPool,
    /// Expansion recursed past the caller-supplied depth bound.
    RecursionLimit,
}

/// The mathematical view of a generation failure.
pub enum GenErrV {
    UndefinedEntry,
    DuplicateVariable { name: Seq<char> },
    UndeclaredVariable { name: Seq<char> },
    UndeclaredRule { name: Seq<char> },
    UndeclaredVocab { name: Seq<char> },
    UndeclaredForm { name: Seq<char> },
    EmptyPool,
    RecursionLimit,
}

impl View for GenError {
    type V = GenErrV;

    open spec fn view(&self) -> GenErrV {
        match self {
            GenError::UndefinedEntry => GenErrV::UndefinedEntry,
            GenError::DuplicateVariable { name } => GenErrV::DuplicateVariable { name: name@ },
            GenError::UndeclaredVariable { name } => GenErrV::UndeclaredVariable { name: name@ },
            GenError::UndeclaredRule { name } => GenErrV::UndeclaredRule { name: name@ },
            GenError::UndeclaredVocab { name } => GenErrV::UndeclaredVocab { name: name@ },
            GenError::UndeclaredForm { name } => GenErrV::UndeclaredForm { name: name@ },
            GenError::EmptyPool => GenErrV::EmptyPool,
            GenError::RecursionLimit => GenErrV::RecursionLimit,
        }
    }
}


/// The one-line description of a generation failure that
/// `GenError::message` returns.
pub open spec fn gen_error_text(e: GenErrV) -> Seq<char> {
    match e {
        GenErrV::UndefinedEntry => "`main` rule is not defined."@,
        GenErrV::DuplicateVariable { name } => "re-definition of variable "@ + name,
        GenErrV::UndeclaredVariable { name } => "undeclared variable: "@ + name,
        GenErrV::UndeclaredRule { name } => "undeclared rule: "@ + name,
        GenErrV::UndeclaredVocab { name } => "undeclared vocab: "@ + name,
        GenErrV::UndeclaredForm { name } => "undeclared form: "@ + name,
        GenErrV::EmptyPool => "empty or zero-weight choice pool"@,
        GenErrV::RecursionLimit => "recursion limit exceeded"@,
    }
}

impl GenError {
    /// Describes the failure in one line.
    pub fn message(&self) -> (r: String)
        ensures
            r@ == gen_error_text(self@),
    {
        match self {
            GenError::UndefinedEntry => String::from_str("`main` rule is not defined."),
            GenError::DuplicateVariable { name } => {
                let mut s = String::from_str("re-definition of variable ");
                s.append(name.as_str());
                s
            },
            GenError::UndeclaredVariable { name } => {
                let mut s = String::from_str("undeclared variable: ");
                s.append(name.as_str());
                s
            },
            GenError::UndeclaredRule { name } => {
                let mut s = String::from_str("undeclared rule: ");
                s.append(name.as_str());
                s
            },
            GenError::UndeclaredVocab { name } => {
                let mut s = String::from_str("undeclared vocab: ");
                s.append(name.as_str());
                s
            },
            GenError::UndeclaredForm { name } => {
                let mut s = String::from_str("undeclared form: ");
                s.append(name.as_str());
                s
            },
            GenError::EmptyPool => String::from_str("empty or zero-weight choice pool"),
            GenError::RecursionLimit => String::from_str("recursion limit exceeded"),
        }
    }
}

/// What one generation run yields: the output text, or a failure.
pub type GenResV = Result<Seq<char>, GenErrV>;

/// The view of an executable generation result.
pub open spec fn res_view(r: Result<String, GenError>) -> GenResV {
    match r {
        Ok(s) => Ok(s@),
        Err(e) => Err(e@),
    }
}

// --- the variable environment --------------------------------------------

/// The bindings of one rule invocation, oldest first.
pub type EnvV = Seq<(Seq<char>, Seq<char>)>;

pub open spec fn env_has(env: EnvV, name: Seq<char>) -> bool {
    exists|i: int| 0 <= i < env.len() && #[trigger] env[i].0 == name
}

/// The bound value of `name`; environments never bind a name twice.
pub open spec fn env_lookup(env: EnvV, name: Seq<char>) -> Option<Seq<char>> {
    if env_has(env, name) {
        Some(env[choose|i: int| 0 <= i < env.len() && #[trigger] env[i].0 == name].1)
    } else {
        None
    }
}

pub open spec fn env_distinct(env: EnvV) -> bool {
    forall|i: int, j: int| 0 <= i < j < env.len() ==> env[i].0 != env[j].0
}

/// The transient variable bindings of one rule invocation: never shared
/// across invocations or across rule boundaries.
pub struct Env {
    entries: Vec<(String, String)>,
}

impl View for Env {
    type V = EnvV;

    closed spec fn view(&self) -> EnvV {
        self.entries.deep_view()
    }
}

impl Env {
    /// The empty environment a rule invocation starts with.
    pub fn new() -> (r: Env)
        ensures
            r@ == Seq::<(Seq<char>, Seq<char>)>::empty(),
    {
        let e = Env { entries: Vec::new() };
        proof {
            assert(e@ =~= Seq::<(Seq<char>, Seq<char>)>::empty());
        }
        e
    }

    /// The value bound to `name`, if any.
    pub fn lookup(&self, name: &str) -> (r: Option<String>)
        requires
            env_distinct(self@),
        ensures
            match r {
                Some(v) => env_lookup(self@, name@) == Some(v@),
                None => env_lookup(self@, name@) is None,
            },
    {
        let n = self.entries.len();
        let mut i: usize = 0;
        while i < n
            invariant
                env_distinct(self@),
                n == self.entries.len(),
                i <= n,
                forall|j: int| 0 <= j < i ==> self@[j].0 != name@,
            decreases n - i,
        {
            if str_eq(self.entries[i].0.as_str(), name) {
                let v = self.entries[i].1.clone();
                proof {
                    assert(self@[i as int] == self.entries@[i as int].deep_view());
                    assert(self@[i as int].0 == name@ && self@[i as int].1 == v@);
                    assert(env_has(self@, name@));
                    let k = choose|k: int|
                        0 <= k < self@.len() && #[trigger] self@[k].0 == name@;
                    assert(k == i as int);
                }
                return Some(v);
            }
            i += 1;
        }
        proof {
            assert(!env_has(self@, name@));
        }
        None
    }

    /// Binds `name` to `val`; returns `true`, changing nothing, when `name`
    /// is already bound.
    pub fn insert(&mut self, name: String, val: String) -> (dup: bool)
        requires
            env_distinct(old(self)@),
        ensures
            dup == env_has(old(self)@, name@),
            dup ==> final(self)@ == old(self)@,
            !dup ==> final(self)@ == old(self)@.push((name@, val@)) && env_distinct(
                final(self)@,
            ) && env_has(final(self)@, name@),
    {
        let n = self.entries.len();
        let mut i: usize = 0;
        while i < n
            invariant
                env_distinct(self@),
                n == self.entries.len(),
                i <= n,
                forall|j: int| 0 <= j < i ==> self@[j].0 != name@,
            decreases n - i,
        {
            if str_eq(self.entries[i].0.as_str(), name.as_str()) {
                proof {
                    assert(self@[i as int].0 == name@);
                    assert(env_has(self@, name@));
                }
                return true;
            }
            i += 1;
        }
        let ghost oldv = self@;
        self.entries.push((name, val));
        proof {
            assert(!env_has(oldv, name@));
            assert(self@ =~= oldv.push((name@, val@)));
            assert(self@[oldv.len() as int].0 == name@);
            assert(env_has(self@, name@));
        }
        false
    }
}

// --- weighted choice ------------------------------------------------------

/// The sum of a weight pool.
pub open spec fn total_weight(ws: Seq<u32>) -> int
    decreases ws.len(),
{
    if ws.len() == 0 {
        0
    } else {
        total_weight(ws.drop_last()) + ws.last()
    }
}

/// The sum of the first `k` weights: the running prefix sum the scan uses.
pub open spec fn prefix_weight(ws: Seq<u32>, k: int) -> int {
    total_weight(ws.take(k))
}

pub proof fn lemma_total_weight_bounds(ws: Seq<u32>)
    ensures
        0 <= total_weight(ws) <= ws.len() * (u32::MAX as int),
    decreases ws.len(),
{
    if ws.len() > 0 {
        lemma_total_weight_bounds(ws.drop_last());
    }
}

pub proof fn lemma_prefix_weight_step(ws: Seq<u32>, k: int)
    requires
        0 <= k < ws.len(),
    ensures
        prefix_weight(ws, k + 1) == prefix_weight(ws, k) + ws[k],
{
    assert(ws.take(k + 1).drop_last() =~= ws.take(k));
}

pub proof fn lemma_prefix_weight_mono(ws: Seq<u32>, i: int, j: int)
    requires
        0 <= i <= j <= ws.len(),
    ensures
        prefix_weight(ws, i) <= prefix_weight(ws, j),
    decreases j - i,
{
    if i < j {
        lemma_prefix_weight_step(ws, j - 1);
        lemma_prefix_weight_mono(ws, i, j - 1);
    }
}

/// Weighted-choice proportionality: the draws that select candidate `k`
/// form exactly the interval of length `ws[k]` starting at its prefix sum,
/// and no draw selects two candidates. Over a uniform draw in
/// `[0, total)`, each candidate is therefore selected with probability
/// `ws[k] / total`.
pub proof fn lemma_weighted_pick_unique(ws: Seq<u32>, k1: int, k2: int, draw: int)
    requires
        0 <= k1 < ws.len(),
        0 <= k2 < ws.len(),
        prefix_weight(ws, k1) <= draw < prefix_weight(ws, k1) + ws[k1],
        prefix_weight(ws, k2) <= draw < prefix_weight(ws, k2) + ws[k2],
    ensures
        k1 == k2,
{
    if k1 < k2 {
        lemma_prefix_weight_step(ws, k1);
        lemma_prefix_weight_mono(ws, k1 + 1, k2);
        assert(false);
    }
    if k2 < k1 {
        lemma_prefix_weight_step(ws, k2);
        lemma_prefix_weight_mono(ws, k2 + 1, k1);
        assert(false);
    }
}

/// Sums a weight pool.
fn sum_weights(ws: &Vec<u32>) -> (t: u128)
    ensures
        t == total_weight(ws@),
{
    let n = ws.len();
    let mut t: u128 = 0;
    let mut i: usize = 0;
    proof {
        assert(ws@.take(0) =~= Seq::<u32>::empty());
    }
    while i < n
        invariant
            n == ws.len(),
            i <= n,
            t == total_weight(ws@.take(i as int)),
            t <= (i as int) * (u32::MAX as int),
        decreases n - i,
    {
        proof {
            assert(ws@.take(i + 1).drop_last() =~= ws@.take(i as int));
        }
        t = t + ws[i] as u128;
        i += 1;
    }
    proof {
        assert(ws@.take(n as int) =~= ws@);
    }
    t
}

/// The deterministic heart of weighted choice: scans the pool in
/// declaration order, accumulating a prefix sum, and returns the first
/// candidate whose prefix sum exceeds the draw. The result is the unique
/// candidate whose half-open draw interval contains `draw`; its weight is
/// necessarily positive.
pub fn weighted_pick(ws: &Vec<u32>, draw: u128) -> (k: usize)
    requires
        draw < total_weight(ws@),
    ensures
        k < ws.len(),
        prefix_weight(ws@, k as int) <= draw < prefix_weight(ws@, k as int) + ws@[k as int],
        ws@[k as int] > 0,
{
    let n = ws.len();
    let mut ps: u128 = 0;
    let mut i: usize = 0;
    proof {
        assert(ws@.take(0) =~= Seq::<u32>::empty());
        lemma_total_weight_bounds(ws@);
    }
    while i < n
        invariant
            n == ws.len(),
            i <= n,
            draw < total_weight(ws@),
            ps == prefix_weight(ws@, i as int),
            ps <= draw,
            ps <= (i as int) * (u32::MAX as int),
        decreases n - i,
    {
        proof {
            lemma_prefix_weight_step(ws@, i as int);
        }
        let next = ps + ws[i] as u128;
        if draw < next {
            return i;
        }
        ps = next;
        i += 1;
    }
    proof {
        assert(ws@.take(n as int) =~= ws@);
        assert(false);
    }
    0
}


// --- the possible-outcome semantics ---------------------------------------

/// The `choice` alternatives of a rule body, in declaration order.
pub open spec fn choices_of(sents: Seq<SentenceV>) -> Seq<ChoiceV>
    decreases sents.len(),
{
    if sents.len() == 0 {
        Seq::empty()
    } else {
        choices_of(sents.drop_last()) + (match sents.last() {
            SentenceV::Choice(c) => seq![c],
            SentenceV::Let(_) => Seq::empty(),
        })
    }
}

/// The weights of a choice pool, in order.
pub open spec fn choice_weights(cs: Seq<ChoiceV>) -> Seq<u32> {
    cs.map_values(|c: ChoiceV| c.weight)
}

/// The weights of a vocabulary's sets, in order.
pub open spec fn set_weights(sets: Seq<VocabSetV>) -> Seq<u32> {
    sets.map_values(|s: VocabSetV| s.weight)
}

/// The outcomes a vocabulary reference permits once the column is resolved:
/// one set with positive weight is selected and the form at the column is
/// returned whole — forms of different sets are never mixed within one
/// reference. A pool with zero total weight is an `EmptyPool` failure.
pub open spec fn vocab_out(v: VocabV, col: int, res: GenResV) -> bool {
    if total_weight(set_weights(v.sets)) == 0 {
        res == Err::<Seq<char>, _>(GenErrV::EmptyPool)
    } else {
        exists|k: int|
            #![trigger v.sets[k]]
            0 <= k < v.sets.len() && v.sets[k].weight > 0 && res == Ok::<_, GenErrV>(
                v.sets[k].forms[col],
            )
    }
}

/// The outcomes expression evaluation permits under environment `env`.
/// A literal is returned verbatim; a variable must be bound; a rule
/// reference expands the named rule under a fresh, empty environment,
/// spending one unit of recursion depth; a vocabulary reference resolves
/// the vocabulary, then the label, then picks a set by weight.
pub open spec fn expr_out(p: ProgramV, env: EnvV, e: ExprV, res: GenResV, fuel: nat) -> bool
    decreases fuel, 0int, 0int,
{
    match e {
        ExprV::Literal(s) => res == Ok::<_, GenErrV>(s),
        ExprV::Variable(n) => match env_lookup(env, n) {
            Some(v) => res == Ok::<_, GenErrV>(v),
            None => res == Err::<Seq<char>, _>(GenErrV::UndeclaredVariable { name: n }),
        },
        ExprV::Rule(n) => match lookup_rule(p.rules, n) {
            Some(r) => if fuel >= 1 {
                rule_out(p, r, res, (fuel - 1) as nat)
            } else {
                res == Err::<Seq<char>, _>(GenErrV::RecursionLimit)
            },
            None => res == Err::<Seq<char>, _>(GenErrV::UndeclaredRule { name: n }),
        },
        ExprV::Vocab { name, label } => match lookup_vocab(p.vocabs, name) {
            None => res == Err::<Seq<char>, _>(GenErrV::UndeclaredVocab { name }),
            Some(v) => match label_index(v.labels, label) {
                None => res == Err::<Seq<char>, _>(GenErrV::UndeclaredForm { name: label }),
                Some(col) => vocab_out(v, col, res),
            },
        },
    }
}

/// The outcomes of evaluating the items of a chosen alternative from index
/// `i` on, with `acc` already generated. Each item is an independent trial:
/// an item of probability `prob` may be included whenever `prob > 0` and
/// may be skipped whenever `prob < 100`, whatever its siblings did;
/// included results are concatenated in item order.
pub open spec fn items_out(
    p: ProgramV,
    items: Seq<ItemV>,
    i: int,
    env: EnvV,
    acc: Seq<char>,
    res: GenResV,
    fuel: nat,
) -> bool
    decreases fuel, 0int, items.len() - i + 1,
{
    if i < 0 || i >= items.len() {
        res == Ok::<_, GenErrV>(acc)
    } else {
        let it = items[i];
        (it.prob > 0 && exists|v: Seq<char>|
            #![trigger acc.add(v)]
            expr_out(p, env, it.expr, Ok(v), fuel) && items_out(
                p,
                items,
                i + 1,
                env,
                acc.add(v),
                res,
                fuel,
            )) || (it.prob > 0 && res is Err && expr_out(p, env, it.expr, res, fuel)) || (it.prob
            < 100 && items_out(p, items, i + 1, env, acc, res, fuel))
    }
}

/// The outcomes of one selected alternative: its items evaluated in order
/// from an empty accumulator.
pub open spec fn choice_out(p: ProgramV, c: ChoiceV, env: EnvV, res: GenResV, fuel: nat) -> bool
    decreases fuel, 0int, c.items.len() + 2,
{
    items_out(p, c.items, 0, env, Seq::empty(), res, fuel)
}

/// The outcomes of the choice phase of a rule body: one alternative with
/// positive weight is selected from the pool of all `choice` sentences and
/// its items are evaluated; a pool with zero total weight (or a rule with
/// no alternatives at all) is an `EmptyPool` failure.
pub open spec fn rule_choice_out(
    p: ProgramV,
    sents: Seq<SentenceV>,
    env: EnvV,
    res: GenResV,
    fuel: nat,
) -> bool
    decreases fuel, 1int, 0int,
{
    let cs = choices_of(sents);
    if total_weight(choice_weights(cs)) == 0 {
        res == Err::<Seq<char>, _>(GenErrV::EmptyPool)
    } else {
        exists|k: int|
            #![trigger cs[k]]
            0 <= k < cs.len() && cs[k].weight > 0 && choice_out(p, cs[k], env, res, fuel)
    }
}

/// The outcomes of a rule body from sentence `i` on under `env`: each `let`
/// binding's expression is evaluated under the bindings made so far (a
/// re-bound name is a `DuplicateVariable` failure), and once the bindings
/// are done one alternative is selected and evaluated.
pub open spec fn body_out(
    p: ProgramV,
    sents: Seq<SentenceV>,
    i: int,
    env: EnvV,
    res: GenResV,
    fuel: nat,
) -> bool
    decreases fuel, 2int, sents.len() - i + 1,
{
    if i < 0 || i >= sents.len() {
        rule_choice_out(p, sents, env, res, fuel)
    } else {
        match sents[i] {
            SentenceV::Choice(_) => body_out(p, sents, i + 1, env, res, fuel),
            SentenceV::Let(l) => {
                (exists|v: Seq<char>|
                    #![trigger env.push((l.ident, v))]
                    expr_out(p, env, l.expr, Ok(v), fuel) && (if env_has(env, l.ident) {
                        res == Err::<Seq<char>, _>(GenErrV::DuplicateVariable { name: l.ident })
                    } else {
                        body_out(p, sents, i + 1, env.push((l.ident, v)), res, fuel)
                    })) || (res matches Err(er) && expr_out(p, env, l.expr, Err(er), fuel))
            },
        }
    }
}

/// The outcomes of expanding one rule at the given recursion depth: with no
/// depth left the expansion is a `RecursionLimit` failure; otherwise its
/// body is processed from the first sentence under an empty environment.
pub open spec fn rule_out(p: ProgramV, r: RuleV, res: GenResV, fuel: nat) -> bool
    decreases fuel, 3int, 0int,
{
    if fuel == 0 {
        res == Err::<Seq<char>, _>(GenErrV::RecursionLimit)
    } else {
        body_out(p, r.sentences, 0, Seq::empty(), res, fuel)
    }
}

/// The outcomes of one whole generation run: expanding the entry rule
/// `main`, or an `UndefinedEntry` failure when no such rule exists.
pub open spec fn gen_out(p: ProgramV, res: GenResV, fuel: nat) -> bool {
    match lookup_rule(p.rules, "main"@) {
        Some(r) => rule_out(p, r, res, fuel),
        None => res == Err::<Seq<char>, _>(GenErrV::UndefinedEntry),
    }
}

// --- introduction lemmas for the outcome predicates ------------------------

proof fn lemma_items_include(
    p: ProgramV,
    items: Seq<ItemV>,
    i: int,
    env: EnvV,
    acc: Seq<char>,
    v: Seq<char>,
    x: GenResV,
    fuel: nat,
)
    requires
        0 <= i < items.len(),
        items[i].prob > 0,
        expr_out(p, env, items[i].expr, Ok(v), fuel),
        items_out(p, items, i + 1, env, acc.add(v), x, fuel),
    ensures
        items_out(p, items, i, env, acc, x, fuel),
{
}

proof fn lemma_items_expr_err(
    p: ProgramV,
    items: Seq<ItemV>,
    i: int,
    env: EnvV,
    acc: Seq<char>,
    x: GenResV,
    fuel: nat,
)
    requires
        0 <= i < items.len(),
        items[i].prob > 0,
        x is Err,
        expr_out(p, env, items[i].expr, x, fuel),
    ensures
        items_out(p, items, i, env, acc, x, fuel),
{
}

proof fn lemma_items_skip(
    p: ProgramV,
    items: Seq<ItemV>,
    i: int,
    env: EnvV,
    acc: Seq<char>,
    x: GenResV,
    fuel: nat,
)
    requires
        0 <= i < items.len(),
        items[i].prob < 100,
        items_out(p, items, i + 1, env, acc, x, fuel),
    ensures
        items_out(p, items, i, env, acc, x, fuel),
{
}

proof fn lemma_body_choice(
    p: ProgramV,
    sents: Seq<SentenceV>,
    i: int,
    env: EnvV,
    x: GenResV,
    fuel: nat,
)
    requires
        0 <= i < sents.len(),
        sents[i] is Choice,
        body_out(p, sents, i + 1, env, x, fuel),
    ensures
        body_out(p, sents, i, env, x, fuel),
{
}

proof fn lemma_body_bind(
    p: ProgramV,
    sents: Seq<SentenceV>,
    i: int,
    env: EnvV,
    l: LetV,
    v: Seq<char>,
    x: GenResV,
    fuel: nat,
)
    requires
        0 <= i < sents.len(),
        sents[i] == SentenceV::Let(l),
        expr_out(p, env, l.expr, Ok(v), fuel),
        !env_has(env, l.ident),
        body_out(p, sents, i + 1, env.push((l.ident, v)), x, fuel),
    ensures
        body_out(p, sents, i, env, x, fuel),
{
}

proof fn lemma_body_dup(
    p: ProgramV,
    sents: Seq<SentenceV>,
    i: int,
    env: EnvV,
    l: LetV,
    v: Seq<char>,
    fuel: nat,
)
    requires
        0 <= i < sents.len(),
        sents[i] == SentenceV::Let(l),
        expr_out(p, env, l.expr, Ok(v), fuel),
        env_has(env, l.ident),
    ensures
        body_out(p, sents, i, env, Err(GenErrV::DuplicateVariable { name: l.ident }), fuel),
{
    assert(env.push((l.ident, v)).len() == env.len() + 1);
}

proof fn lemma_body_expr_err(
    p: ProgramV,
    sents: Seq<SentenceV>,
    i: int,
    env: EnvV,
    l: LetV,
    er: GenErrV,
    fuel: nat,
)
    requires
        0 <= i < sents.len(),
        sents[i] == SentenceV::Let(l),
        expr_out(p, env, l.expr, Err(er), fuel),
    ensures
        body_out(p, sents, i, env, Err(er), fuel),
{
}

proof fn lemma_body_end(p: ProgramV, sents: Seq<SentenceV>, env: EnvV, x: GenResV, fuel: nat)
    requires
        rule_choice_out(p, sents, env, x, fuel),
    ensures
        body_out(p, sents, sents.len() as int, env, x, fuel),
{
}

proof fn lemma_rule_intro(p: ProgramV, r: RuleV, res: GenResV, fuel: nat)
    requires
        fuel >= 1,
        body_out(p, r.sentences, 0, Seq::empty(), res, fuel),
    ensures
        rule_out(p, r, res, fuel),
{
}

proof fn lemma_rule_choice_pick(
    p: ProgramV,
    sents: Seq<SentenceV>,
    env: EnvV,
    k: int,
    res: GenResV,
    fuel: nat,
)
    requires
        0 <= k < choices_of(sents).len(),
        choices_of(sents)[k].weight > 0,
        total_weight(choice_weights(choices_of(sents))) != 0,
        choice_out(p, choices_of(sents)[k], env, res, fuel),
    ensures
        rule_choice_out(p, sents, env, res, fuel),
{
}

proof fn lemma_vocab_pick(v: VocabV, col: int, k: int, res: GenResV)
    requires
        0 <= k < v.sets.len(),
        v.sets[k].weight > 0,
        total_weight(set_weights(v.sets)) != 0,
        res == Ok::<_, GenErrV>(v.sets[k].forms[col]),
    ensures
        vocab_out(v, col, res),
{
}

// --- name-resolution helpers ------------------------------------------------

proof fn lemma_lookup_rule_of(rs: Seq<RuleV>, ru: RuleV, name: Seq<char>)
    requires
        crate::ast::distinct_rule_names(rs),
        rs.contains(ru),
        ru.name == name,
    ensures
        lookup_rule(rs, name) == Some(ru),
{
    let j = choose|j: int| 0 <= j < rs.len() && rs[j] == ru;
    assert(rs[j].name == name);
    assert(has_rule(rs, name));
    let i = choose|i: int| 0 <= i < rs.len() && #[trigger] rs[i].name == name;
    assert(i == j);
}

proof fn lemma_lookup_vocab_of(vs: Seq<VocabV>, v: VocabV, name: Seq<char>)
    requires
        crate::ast::distinct_vocab_names(vs),
        vs.contains(v),
        v.name == name,
    ensures
        lookup_vocab(vs, name) == Some(v),
{
    let j = choose|j: int| 0 <= j < vs.len() && vs[j] == v;
    assert(vs[j].name == name);
    assert(has_vocab(vs, name));
    let i = choose|i: int| 0 <= i < vs.len() && #[trigger] vs[i].name == name;
    assert(i == j);
}

proof fn lemma_wf_vocab_of(p: ProgramV, v: VocabV)
    requires
        wf_program(p),
        p.vocabs.contains(v),
    ensures
        wf_vocab(v),
{
    let j = choose|j: int| 0 <= j < p.vocabs.len() && p.vocabs[j] == v;
    assert(wf_vocab(p.vocabs[j]));
}

proof fn lemma_label_col(labels: Seq<Seq<char>>, l: Seq<char>, k: int)
    requires
        crate::ast::distinct_labels(labels),
        0 <= k < labels.len(),
        labels[k] == l,
    ensures
        label_index(labels, l) == Some(k),
{
    assert(has_label(labels, l));
    let i = choose|i: int| 0 <= i < labels.len() && #[trigger] labels[i] == l;
    assert(i == k);
}

// --- the executable generator ----------------------------------------------

/// Selects one index from a weight pool by weighted random choice, or
/// reports the pool empty: a candidate of weight zero is never selected,
/// and a pool whose weights sum to zero selects nothing.
pub fn choose_index(ws: &Vec<u32>, rng: &mut RandSource) -> (r: Result<usize, GenError>)
    ensures
        match r {
            Ok(k) => total_weight(ws@) > 0 && k < ws.len() && ws@[k as int] > 0,
            Err(e) => total_weight(ws@) == 0 && e@ == GenErrV::EmptyPool,
        },
{
    let total = sum_weights(ws);
    if total == 0 {
        Err(GenError::EmptyPool)
    } else {
        let draw = rng.below(total);
        Ok(weighted_pick(ws, draw))
    }
}

/// Evaluates one expression under the current environment; the result is
/// one of the outcomes `expr_out` permits.
#[verifier::loop_isolation(false)]
fn gen_expr(
    p: &Program,
    env: &Env,
    e: &Expr,
    rng: &mut RandSource,
    fuel: u32,
) -> (r: Result<String, GenError>)
    requires
        wf_program(p@),
        env_distinct(env@),
        fuel >= 1,
    ensures
        expr_out(p@, env@, e@, res_view(r), fuel as nat),
    decreases fuel, 0int, 0int,
{
    match e {
        Expr::Literal(s) => Ok(s.clone()),
        Expr::Variable(n) => match env.lookup(n.as_str()) {
            Some(v) => Ok(v),
            None => Err(GenError::UndeclaredVariable { name: n.clone() }),
        },
        Expr::Rule(n) => match find_rule(&p.rules, n.as_str()) {
            Some(ru) => {
                proof {
                    lemma_lookup_rule_of(p@.rules, ru@, n@);
                }
                gen_rule(p, ru, rng, fuel - 1)
            },
            None => Err(GenError::UndeclaredRule { name: n.clone() }),
        },
        Expr::Vocab { name, label } => match find_vocab(&p.vocabs, name.as_str()) {
            None => Err(GenError::UndeclaredVocab { name: name.clone() }),
            Some(v) => {
                proof {
                    lemma_lookup_vocab_of(p@.vocabs, v@, name@);
                    lemma_wf_vocab_of(p@, v@);
                }
                match find_label(&v.labels, label.as_str()) {
                    None => Err(GenError::UndeclaredForm { name: label.clone() }),
                    Some(col) => {
                        proof {
                            lemma_label_col(v@.labels, label@, col as int);
                        }
                        let n = v.sets.len();
                        let mut ws: Vec<u32> = Vec::new();
                        let mut i: usize = 0;
                        proof {
                            assert(ws@ =~= set_weights(v@.sets.take(0)));
                        }
                        while i < n
                            invariant
                                n == v.sets.len(),
                                i <= n,
                                ws@ == set_weights(v@.sets.take(i as int)),
                            decreases n - i,
                        {
                            ws.push(v.sets[i].weight);
                            i += 1;
                            proof {
                                assert(v@.sets.take(i as int).drop_last() =~= v@.sets.take(
                                    i - 1,
                                ));
                                assert(ws@ =~= set_weights(v@.sets.take(i as int)));
                            }
                        }
                        proof {
                            assert(v@.sets.take(n as int) =~= v@.sets);
                        }
                        match choose_index(&ws, rng) {
                            Err(er) => {
                                proof {
                                    assert(vocab_out(v@, col as int, Err(er@)));
                                }
                                Err(er)
                            },
                            Ok(k) => {
                                proof {
                                    assert(v@.sets[k as int].weight == ws@[k as int]);
                                    assert(v@.sets[k as int].forms.len() == v@.labels.len());
                                    assert(v@.sets[k as int] == v.sets@[k as int]@);
                                }
                                let out = v.sets[k].forms[col].clone();
                                proof {
                                    assert(out@ == v@.sets[k as int].forms[col as int]);
                                    lemma_vocab_pick(v@, col as int, k as int, Ok(out@));
                                }
                                Ok(out)
                            },
                        }
                    },
                }
            },
        },
    }
}

/// Evaluates the items of one selected alternative in order, drawing one
/// independent probability per item; the result is one of the outcomes
/// `choice_out` permits.
#[verifier::loop_isolation(false)]
fn gen_choice(
    p: &Program,
    c: &Choice,
    env: &Env,
    rng: &mut RandSource,
    fuel: u32,
) -> (r: Result<String, GenError>)
    requires
        wf_program(p@),
        env_distinct(env@),
        fuel >= 1,
    ensures
        choice_out(p@, c@, env@, res_view(r), fuel as nat),
    decreases fuel, 0int, 1int,
{
    let ghost fueln = fuel as nat;
    let n = c.items.len();
    let mut out = String::new();
    let mut i: usize = 0;
    while i < n
        invariant
            n == c.items.len(),
            i <= n,
            forall|x: GenResV|
                #[trigger] items_out(p@, c@.items, i as int, env@, out@, x, fueln) ==> items_out(
                    p@,
                    c@.items,
                    0,
                    env@,
                    Seq::empty(),
                    x,
                    fueln,
                ),
        decreases n - i,
    {
        let it = &c.items[i];
        proof {
            assert(c@.items[i as int] == it@);
        }
        let draw = rng.below(100);
        if draw < it.prob as u128 {
            match gen_expr(p, env, &it.expr, rng, fuel) {
                Err(e) => {
                    proof {
                        lemma_items_expr_err(
                            p@,
                            c@.items,
                            i as int,
                            env@,
                            out@,
                            Err(e@),
                            fueln,
                        );
                        assert(items_out(p@, c@.items, 0, env@, Seq::empty(), Err(e@), fueln));
                    }
                    return Err(e);
                },
                Ok(v) => {
                    let ghost out0 = out@;
                    out.append(v.as_str());
                    proof {
                        assert(out@ == out0.add(v@));
                        assert forall|x: GenResV|
                            #[trigger] items_out(
                                p@,
                                c@.items,
                                i + 1,
                                env@,
                                out@,
                                x,
                                fueln,
                            ) implies items_out(
                            p@,
                            c@.items,
                            0,
                            env@,
                            Seq::empty(),
                            x,
                            fueln,
                        ) by {
                            lemma_items_include(
                                p@,
                                c@.items,
                                i as int,
                                env@,
                                out0,
                                v@,
                                x,
                                fueln,
                            );
                        };
                    }
                },
            }
        } else {
            proof {
                assert(it@.prob < 100);
                assert forall|x: GenResV|
                    #[trigger] items_out(p@, c@.items, i + 1, env@, out@, x, fueln) implies
                    items_out(p@, c@.items, 0, env@, Seq::empty(), x, fueln) by {
                    lemma_items_skip(p@, c@.items, i as int, env@, out@, x, fueln);
                };
            }
        }
        i += 1;
    }
    proof {
        assert(items_out(p@, c@.items, n as int, env@, out@, Ok(out@), fueln));
    }
    Ok(out)
}

/// Expands one rule: processes its `let` bindings in order under a fresh
/// environment, then selects one alternative by weighted random choice and
/// evaluates its items. The result is one of the outcomes `rule_out`
/// permits at this recursion depth.
#[verifier::loop_isolation(false)]
fn gen_rule(p: &Program, r: &Rule, rng: &mut RandSource, fuel: u32) -> (res: Result<
    String,
    GenError,
>)
    requires
        wf_program(p@),
    ensures
        rule_out(p@, r@, res_view(res), fuel as nat),
    decreases fuel, 3int, 0int,
{
    if fuel == 0 {
        return Err(GenError::RecursionLimit);
    }
    let ghost fueln = fuel as nat;
    let ghost sents = r@.sentences;
    let n = r.sentences.len();
    let mut env = Env::new();
    let mut i: usize = 0;
    while i < n
        invariant
            fuel >= 1,
            n == r.sentences.len(),
            i <= n,
            env_distinct(env@),
            forall|x: GenResV|
                #[trigger] body_out(p@, sents, i as int, env@, x, fueln) ==> body_out(
                    p@,
                    sents,
                    0,
                    Seq::empty(),
                    x,
                    fueln,
                ),
        decreases n - i,
    {
        proof {
            assert(sents[i as int] == r.sentences@[i as int]@);
        }
        match r.sentences[i].get_let_ref() {
            None => {
                proof {
                    assert forall|x: GenResV|
                        #[trigger] body_out(p@, sents, i + 1, env@, x, fueln) implies body_out(
                        p@,
                        sents,
                        0,
                        Seq::empty(),
                        x,
                        fueln,
                    ) by {
                        lemma_body_choice(p@, sents, i as int, env@, x, fueln);
                    };
                }
            },
            Some(l) => {
                let ghost env0 = env@;
                proof {
                    assert(sents[i as int] == SentenceV::Let(l@));
                }
                match gen_expr(p, &env, &l.expr, rng, fuel) {
                    Err(e) => {
                        proof {
                            lemma_body_expr_err(p@, sents, i as int, env0, l@, e@, fueln);
                            assert(rule_out(p@, r@, Err(e@), fueln));
                        }
                        return Err(e);
                    },
                    Ok(v) => {
                        let ghost vv = v@;
                        let dup = env.insert(l.ident.clone(), v);
                        if dup {
                            let name = l.ident.clone();
                            proof {
                                lemma_body_dup(p@, sents, i as int, env0, l@, vv, fueln);
                                assert(rule_out(
                                    p@,
                                    r@,
                                    Err(GenErrV::DuplicateVariable { name: name@ }),
                                    fueln,
                                ));
                            }
                            return Err(GenError::DuplicateVariable { name });
                        }
                        proof {
                            assert(env@ == env0.push((l@.ident, vv)));
                            assert forall|x: GenResV|
                                #[trigger] body_out(p@, sents, i + 1, env@, x, fueln) implies
                                body_out(p@, sents, 0, Seq::empty(), x, fueln) by {
                                lemma_body_bind(p@, sents, i as int, env0, l@, vv, x, fueln);
                            };
                        }
                    },
                }
            },
        }
        i += 1;
    }
    // collect the choice pool and its weights, in declaration order
    let mut chs: Vec<&Choice> = Vec::new();
    let mut ws: Vec<u32> = Vec::new();
    let mut i: usize = 0;
    proof {
        assert(chs@.map_values(|c: &Choice| c@) =~= choices_of(sents.take(0)));
        assert(ws@ =~= choice_weights(choices_of(sents.take(0))));
    }
    while i < n
        invariant
            fuel >= 1,
            n == r.sentences.len(),
            i <= n,
            chs@.map_values(|c: &Choice| c@) == choices_of(sents.take(i as int)),
            ws@ == choice_weights(choices_of(sents.take(i as int))),
        decreases n - i,
    {
        proof {
            assert(sents[i as int] == r.sentences@[i as int]@);
            assert(sents.take(i + 1).drop_last() =~= sents.take(i as int));
        }
        match r.sentences[i].get_choice_ref() {
            Some(c) => {
                chs.push(c);
                ws.push(c.weight);
                proof {
                    assert(chs@.map_values(|c: &Choice| c@) =~= choices_of(sents.take(i + 1)));
                    assert(ws@ =~= choice_weights(choices_of(sents.take(i + 1))));
                }
            },
            None => {
                proof {
                    assert(chs@.map_values(|c: &Choice| c@) =~= choices_of(sents.take(i + 1)));
                    assert(ws@ =~= choice_weights(choices_of(sents.take(i + 1))));
                }
            },
        }
        i += 1;
    }
    proof {
        assert(sents.take(n as int) =~= sents);
    }
    let ghost cs = choices_of(sents);
    match choose_index(&ws, rng) {
        Err(e) => {
            proof {
                assert(rule_choice_out(p@, sents, env@, Err(e@), fueln));
                lemma_body_end(p@, sents, env@, Err(e@), fueln);
                assert(rule_out(p@, r@, Err(e@), fueln));
            }
            Err(e)
        },
        Ok(k) => {
            proof {
                assert(cs[k as int] == chs@.map_values(|c: &Choice| c@)[k as int]);
                assert(cs[k as int].weight == ws@[k as int]);
            }
            let out = gen_choice(p, chs[k], &env, rng, fuel);
            proof {
                assert(choice_out(p@, cs[k as int], env@, res_view(out), fueln));
                lemma_rule_choice_pick(p@, sents, env@, k as int, res_view(out), fueln);
                lemma_body_end(p@, sents, env@, res_view(out), fueln);
                assert(rule_out(p@, r@, res_view(out), fueln));
            }
            out
        },
    }
}

impl Program {
    /// Expands the entry rule `main` once, with at most `fuel` levels of
    /// rule-reference recursion; the result is one of the outcomes the
    /// weighted-expansion semantics (`gen_out`) permits, and generation
    /// never mutates the program.
    pub fn generate(&self, rng: &mut RandSource, fuel: u32) -> (res: Result<String, GenError>)
        requires
            wf_program(self@),
        ensures
            gen_out(self@, res_view(res), fuel as nat),
    {
        match find_rule(&self.rules, "main") {
            None => Err(GenError::UndefinedEntry),
            Some(ru) => {
                proof {
                    lemma_lookup_rule_of(self@.rules, ru@, "main"@);
                }
                gen_rule(self, ru, rng, fuel)
            },
        }
    }
}

impl Ast {
    /// Expands the grammar's entry rule once; see `Program::generate`.
    pub fn generate(&self, rng: &mut RandSource, fuel: u32) -> (res: Result<String, GenError>)
        requires
            wf_program(self@),
        ensures
            gen_out(self@, res_view(res), fuel as nat),
    {
        self.program.generate(rng, fuel)
    }
}

impl VocabSet {
    /// The form of this set at the resolved column.
    pub fn generate(&self, idx: usize) -> (r: Result<String, GenError>)
        requires
            idx < self.forms.len(),
        ensures
            res_view(r) == Ok::<_, GenErrV>(self@.forms[idx as int]),
    {
        Ok(self.forms[idx].clone())
    }
}


// --- laws of the generator --------------------------------------------------

/// Round-trip of literals: a rule whose one alternative has positive weight
/// and a single always-included literal item generates exactly that literal
/// — every permitted outcome, whatever the random source yields, is
/// `Ok(text)`.
pub proof fn lemma_literal_rule_exact(
    p: ProgramV,
    r: RuleV,
    c: ChoiceV,
    text: Seq<char>,
    res: GenResV,
    fuel: nat,
)
    requires
        fuel >= 1,
        r.sentences == seq![SentenceV::Choice(c)],
        c.weight > 0,
        c.items == seq![ItemV { prob: 100, expr: ExprV::Literal(text) }],
        rule_out(p, r, res, fuel),
    ensures
        res == Ok::<_, GenErrV>(text),
{
    assert(body_out(p, r.sentences, 0, Seq::empty(), res, fuel));
    assert(r.sentences[0] == SentenceV::Choice(c));
    assert(body_out(p, r.sentences, 1, Seq::empty(), res, fuel));
    assert(rule_choice_out(p, r.sentences, Seq::empty(), res, fuel));
    let cs = choices_of(r.sentences);
    reveal_with_fuel(choices_of, 3);
    reveal_with_fuel(total_weight, 3);
    assert(r.sentences.drop_last() =~= Seq::<SentenceV>::empty());
    assert(cs =~= seq![c]);
    assert(choice_weights(cs) =~= seq![c.weight]);
    assert(seq![c.weight].drop_last() =~= Seq::<u32>::empty());
    assert(total_weight(choice_weights(cs)) == c.weight);
    let k = choose|k: int| #![trigger cs[k]] 0 <= k < cs.len() && cs[k].weight > 0 && choice_out(
        p,
        cs[k],
        Seq::empty(),
        res,
        fuel,
    );
    assert(k == 0);
    assert(items_out(p, c.items, 0, Seq::empty(), Seq::empty(), res, fuel));
    assert(c.items[0] == ItemV { prob: 100, expr: ExprV::Literal(text) });
    if res is Err {
        assert(false);
    }
    let v = choose|v: Seq<char>|
        #![trigger Seq::empty().add(v)]
        expr_out(p, Seq::empty(), c.items[0].expr, Ok(v), fuel) && items_out(
            p,
            c.items,
            1,
            Seq::empty(),
            Seq::empty().add(v),
            res,
            fuel,
        );
    assert(v == text);
    assert(res == Ok::<_, GenErrV>(Seq::empty().add(text)));
    assert(Seq::empty().add(text) =~= text);
}

/// Variable scoping: the outcome of a rule reference does not depend on the
/// caller's environment — the callee rule starts from a fresh, empty one,
/// so a variable bound by `let` in the calling rule is not visible inside
/// the called rule.
pub proof fn lemma_rule_ref_scoped(
    p: ProgramV,
    env1: EnvV,
    env2: EnvV,
    name: Seq<char>,
    res: GenResV,
    fuel: nat,
)
    ensures
        expr_out(p, env1, ExprV::Rule(name), res, fuel) == expr_out(
            p,
            env2,
            ExprV::Rule(name),
            res,
            fuel,
        ),
{
}

/// Vocabulary consistency, one set: when the referenced vocabulary holds
/// exactly one set, of positive weight, every permitted outcome of a
/// vocabulary reference is that set's form at the resolved column — the
/// forms of one set stay together.
pub proof fn lemma_single_set_vocab(v: VocabV, col: int, res: GenResV)
    requires
        v.sets.len() == 1,
        v.sets[0].weight > 0,
        vocab_out(v, col, res),
    ensures
        res == Ok::<_, GenErrV>(v.sets[0].forms[col]),
{
    reveal_with_fuel(total_weight, 3);
    assert(set_weights(v.sets) =~= seq![v.sets[0].weight]);
    assert(seq![v.sets[0].weight].drop_last() =~= Seq::<u32>::empty());
    assert(total_weight(set_weights(v.sets)) == v.sets[0].weight);
    let k = choose|k: int|
        #![trigger v.sets[k]]
        0 <= k < v.sets.len() && v.sets[k].weight > 0 && res == Ok::<_, GenErrV>(
            v.sets[k].forms[col],
        );
    assert(k == 0);
}

/// Vocabulary consistency, several sets: with two sets of positive weight
/// the engine is permitted to resolve two separate references to different
/// sets — both sets' forms are permitted outcomes of one reference.
pub proof fn lemma_vocab_sets_independent(v: VocabV, col: int)
    requires
        v.sets.len() == 2,
        v.sets[0].weight > 0,
        v.sets[1].weight > 0,
    ensures
        vocab_out(v, col, Ok(v.sets[0].forms[col])),
        vocab_out(v, col, Ok(v.sets[1].forms[col])),
{
    reveal_with_fuel(total_weight, 4);
    assert(set_weights(v.sets) =~= seq![v.sets[0].weight, v.sets[1].weight]);
    assert(seq![v.sets[0].weight, v.sets[1].weight].drop_last() =~= seq![v.sets[0].weight]);
    assert(seq![v.sets[0].weight].drop_last() =~= Seq::<u32>::empty());
    assert(total_weight(set_weights(v.sets)) == v.sets[0].weight + v.sets[1].weight);
    assert(v.sets[0].weight > 0 && Ok::<_, GenErrV>(v.sets[0].forms[col]) == Ok::<_, GenErrV>(
        v.sets[0].forms[col],
    ));
    assert(v.sets[1].weight > 0 && Ok::<_, GenErrV>(v.sets[1].forms[col]) == Ok::<_, GenErrV>(
        v.sets[1].forms[col],
    ));
}


/// Helper: an alternative whose single item is an always-included literal
/// permits exactly one outcome — that literal.
proof fn lemma_single_literal_choice(
    p: ProgramV,
    c: ChoiceV,
    env: EnvV,
    text: Seq<char>,
    res: GenResV,
    fuel: nat,
)
    requires
        c.items == seq![ItemV { prob: 100, expr: ExprV::Literal(text) }],
        choice_out(p, c, env, res, fuel),
    ensures
        res == Ok::<_, GenErrV>(text),
{
    assert(items_out(p, c.items, 0, env, Seq::empty(), res, fuel));
    assert(c.items[0] == ItemV { prob: 100, expr: ExprV::Literal(text) });
    let v = choose|v: Seq<char>|
        #![trigger Seq::empty().add(v)]
        expr_out(p, env, c.items[0].expr, Ok(v), fuel) && items_out(
            p,
            c.items,
            1,
            env,
            Seq::empty().add(v),
            res,
            fuel,
        );
    assert(v == text);
    assert(res == Ok::<_, GenErrV>(Seq::empty().add(text)));
    assert(Seq::empty().add(text) =~= text);
}

/// A rule made of two alternatives, each a single always-included literal,
/// generates one of the two literals — nothing else — whatever the random
/// source yields.
pub proof fn lemma_two_literal_rule_exact(
    p: ProgramV,
    r: RuleV,
    c1: ChoiceV,
    c2: ChoiceV,
    l1: Seq<char>,
    l2: Seq<char>,
    res: GenResV,
    fuel: nat,
)
    requires
        fuel >= 1,
        r.sentences == seq![SentenceV::Choice(c1), SentenceV::Choice(c2)],
        c1.weight > 0,
        c2.weight > 0,
        c1.items == seq![ItemV { prob: 100, expr: ExprV::Literal(l1) }],
        c2.items == seq![ItemV { prob: 100, expr: ExprV::Literal(l2) }],
        rule_out(p, r, res, fuel),
    ensures
        res == Ok::<_, GenErrV>(l1) || res == Ok::<_, GenErrV>(l2),
{
    assert(body_out(p, r.sentences, 0, Seq::empty(), res, fuel));
    assert(r.sentences[0] == SentenceV::Choice(c1));
    assert(body_out(p, r.sentences, 1, Seq::empty(), res, fuel));
    assert(r.sentences[1] == SentenceV::Choice(c2));
    assert(body_out(p, r.sentences, 2, Seq::empty(), res, fuel));
    assert(rule_choice_out(p, r.sentences, Seq::empty(), res, fuel));
    let cs = choices_of(r.sentences);
    reveal_with_fuel(choices_of, 4);
    reveal_with_fuel(total_weight, 4);
    assert(r.sentences.drop_last() =~= seq![SentenceV::Choice(c1)]);
    assert(seq![SentenceV::Choice(c1)].drop_last() =~= Seq::<SentenceV>::empty());
    assert(cs =~= seq![c1, c2]);
    assert(choice_weights(cs) =~= seq![c1.weight, c2.weight]);
    assert(seq![c1.weight, c2.weight].drop_last() =~= seq![c1.weight]);
    assert(seq![c1.weight].drop_last() =~= Seq::<u32>::empty());
    assert(total_weight(choice_weights(cs)) == c1.weight + c2.weight);
    let k = choose|k: int| #![trigger cs[k]] 0 <= k < cs.len() && cs[k].weight > 0 && choice_out(
        p,
        cs[k],
        Seq::empty(),
        res,
        fuel,
    );
    if k == 0 {
        lemma_single_literal_choice(p, c1, Seq::empty(), l1, res, fuel);
    } else {
        assert(k == 1);
        lemma_single_literal_choice(p, c2, Seq::empty(), l2, res, fuel);
    }
}

/// End to end: in a program whose entry rule has one alternative emitting a
/// literal prefix and then a reference to a rule of two single-literal
/// alternatives, every permitted generation outcome at depth two or more is
/// the prefix followed by one of the two literals — never an error and
/// never any other text.
pub proof fn lemma_prefix_and_name_outputs(
    p: ProgramV,
    m: RuleV,
    mc: ChoiceV,
    callee: RuleV,
    c1: ChoiceV,
    c2: ChoiceV,
    prefix: Seq<char>,
    nm: Seq<char>,
    l1: Seq<char>,
    l2: Seq<char>,
    res: GenResV,
    fuel: nat,
)
    requires
        fuel >= 2,
        lookup_rule(p.rules, "main"@) == Some(m),
        m.sentences == seq![SentenceV::Choice(mc)],
        mc.weight > 0,
        mc.items == seq![
            ItemV { prob: 100, expr: ExprV::Literal(prefix) },
            ItemV { prob: 100, expr: ExprV::Rule(nm) },
        ],
        lookup_rule(p.rules, nm) == Some(callee),
        callee.sentences == seq![SentenceV::Choice(c1), SentenceV::Choice(c2)],
        c1.weight > 0,
        c2.weight > 0,
        c1.items == seq![ItemV { prob: 100, expr: ExprV::Literal(l1) }],
        c2.items == seq![ItemV { prob: 100, expr: ExprV::Literal(l2) }],
        gen_out(p, res, fuel),
    ensures
        res == Ok::<_, GenErrV>(prefix + l1) || res == Ok::<_, GenErrV>(prefix + l2),
{
    assert(rule_out(p, m, res, fuel));
    assert(body_out(p, m.sentences, 0, Seq::empty(), res, fuel));
    assert(m.sentences[0] == SentenceV::Choice(mc));
    assert(body_out(p, m.sentences, 1, Seq::empty(), res, fuel));
    assert(rule_choice_out(p, m.sentences, Seq::empty(), res, fuel));
    let cs = choices_of(m.sentences);
    reveal_with_fuel(choices_of, 3);
    reveal_with_fuel(total_weight, 3);
    assert(m.sentences.drop_last() =~= Seq::<SentenceV>::empty());
    assert(cs =~= seq![mc]);
    assert(choice_weights(cs) =~= seq![mc.weight]);
    assert(seq![mc.weight].drop_last() =~= Seq::<u32>::empty());
    assert(total_weight(choice_weights(cs)) == mc.weight);
    let k = choose|k: int| #![trigger cs[k]] 0 <= k < cs.len() && cs[k].weight > 0 && choice_out(
        p,
        cs[k],
        Seq::empty(),
        res,
        fuel,
    );
    assert(k == 0);
    assert(items_out(p, mc.items, 0, Seq::empty(), Seq::empty(), res, fuel));
    assert(mc.items[0] == ItemV { prob: 100, expr: ExprV::Literal(prefix) });
    assert(mc.items[1] == ItemV { prob: 100, expr: ExprV::Rule(nm) });
    let env = Seq::<(Seq<char>, Seq<char>)>::empty();
    let v0 = choose|v: Seq<char>|
        #![trigger Seq::empty().add(v)]
        expr_out(p, env, mc.items[0].expr, Ok(v), fuel) && items_out(
            p,
            mc.items,
            1,
            env,
            Seq::empty().add(v),
            res,
            fuel,
        );
    assert(v0 == prefix);
    let acc1 = Seq::empty().add(prefix);
    assert(items_out(p, mc.items, 1, env, acc1, res, fuel));
    if res is Err && expr_out(p, env, mc.items[1].expr, res, fuel) {
        assert(rule_out(p, callee, res, (fuel - 1) as nat));
        lemma_two_literal_rule_exact(p, callee, c1, c2, l1, l2, res, (fuel - 1) as nat);
        assert(false);
    }
    let v1 = choose|v: Seq<char>|
        #![trigger acc1.add(v)]
        expr_out(p, env, mc.items[1].expr, Ok(v), fuel) && items_out(
            p,
            mc.items,
            2,
            env,
            acc1.add(v),
            res,
            fuel,
        );
    assert(rule_out(p, callee, Ok(v1), (fuel - 1) as nat));
    lemma_two_literal_rule_exact(p, callee, c1, c2, l1, l2, Ok(v1), (fuel - 1) as nat);
    assert(v1 == l1 || v1 == l2);
    assert(res == Ok::<_, GenErrV>(acc1.add(v1)));
    assert(acc1.add(l1) =~= prefix + l1);
    assert(acc1.add(l2) =~= prefix + l2);
}


/// Item independence: in an alternative of two items whose probabilities
/// lie strictly between 0 and 100, every combination of inclusions is a
/// permitted outcome — each item's trial is independent of its sibling's.
pub proof fn lemma_items_all_combinations(
    p: ProgramV,
    c: ChoiceV,
    env: EnvV,
    a: Seq<char>,
    b: Seq<char>,
    pa: u32,
    pb: u32,
    fuel: nat,
)
    requires
        c.items == seq![
            ItemV { prob: pa, expr: ExprV::Literal(a) },
            ItemV { prob: pb, expr: ExprV::Literal(b) },
        ],
        0 < pa < 100,
        0 < pb < 100,
    ensures
        choice_out(p, c, env, Ok(a + b), fuel),
        choice_out(p, c, env, Ok(a), fuel),
        choice_out(p, c, env, Ok(b), fuel),
        choice_out(p, c, env, Ok(Seq::empty()), fuel),
{
    let e = Seq::<char>::empty();
    assert(c.items[0] == ItemV { prob: pa, expr: ExprV::Literal(a) });
    assert(c.items[1] == ItemV { prob: pb, expr: ExprV::Literal(b) });
    assert(expr_out(p, env, c.items[0].expr, Ok(a), fuel));
    assert(expr_out(p, env, c.items[1].expr, Ok(b), fuel));

    assert(items_out(p, c.items, 2, env, e.add(a).add(b), Ok(e.add(a).add(b)), fuel));
    lemma_items_include(p, c.items, 1, env, e.add(a), b, Ok(e.add(a).add(b)), fuel);
    lemma_items_include(p, c.items, 0, env, e, a, Ok(e.add(a).add(b)), fuel);
    assert(e.add(a).add(b) =~= a + b);

    assert(items_out(p, c.items, 2, env, e.add(a), Ok(e.add(a)), fuel));
    lemma_items_skip(p, c.items, 1, env, e.add(a), Ok(e.add(a)), fuel);
    lemma_items_include(p, c.items, 0, env, e, a, Ok(e.add(a)), fuel);
    assert(e.add(a) =~= a);

    assert(items_out(p, c.items, 2, env, e.add(b), Ok(e.add(b)), fuel));
    lemma_items_include(p, c.items, 1, env, e, b, Ok(e.add(b)), fuel);
    lemma_items_skip(p, c.items, 0, env, e, Ok(e.add(b)), fuel);
    assert(e.add(b) =~= b);

    assert(items_out(p, c.items, 2, env, e, Ok(e), fuel));
    lemma_items_skip(p, c.items, 1, env, e, Ok(e), fuel);
    lemma_items_skip(p, c.items, 0, env, e, Ok(e), fuel);
}


/// Helper: an alternative whose single item is an always-included literal
/// does permit that literal as an outcome.
proof fn lemma_single_literal_choice_attainable(
    p: ProgramV,
    c: ChoiceV,
    env: EnvV,
    text: Seq<char>,
    fuel: nat,
)
    requires
        c.items == seq![ItemV { prob: 100, expr: ExprV::Literal(text) }],
    ensures
        choice_out(p, c, env, Ok(text), fuel),
{
    let e = Seq::<char>::empty();
    assert(e.add(text) =~= text);
    assert(items_out(p, c.items, 1, env, e.add(text), Ok(text), fuel));
    assert(c.items[0] == ItemV { prob: 100, expr: ExprV::Literal(text) });
    assert(expr_out(p, env, c.items[0].expr, Ok(text), fuel));
    lemma_items_include(p, c.items, 0, env, e, text, Ok(text), fuel);
}

/// A rule made of two single-literal alternatives of positive weight
/// permits each of its two literals as an outcome.
pub proof fn lemma_two_literal_rule_attainable(
    p: ProgramV,
    r: RuleV,
    c1: ChoiceV,
    c2: ChoiceV,
    l1: Seq<char>,
    l2: Seq<char>,
    fuel: nat,
)
    requires
        fuel >= 1,
        r.sentences == seq![SentenceV::Choice(c1), SentenceV::Choice(c2)],
        c1.weight > 0,
        c2.weight > 0,
        c1.items == seq![ItemV { prob: 100, expr: ExprV::Literal(l1) }],
        c2.items == seq![ItemV { prob: 100, expr: ExprV::Literal(l2) }],
    ensures
        rule_out(p, r, Ok(l1), fuel),
        rule_out(p, r, Ok(l2), fuel),
{
    let env = Seq::<(Seq<char>, Seq<char>)>::empty();
    lemma_single_literal_choice_attainable(p, c1, env, l1, fuel);
    lemma_single_literal_choice_attainable(p, c2, env, l2, fuel);
    let cs = choices_of(r.sentences);
    reveal_with_fuel(choices_of, 4);
    reveal_with_fuel(total_weight, 4);
    assert(r.sentences.drop_last() =~= seq![SentenceV::Choice(c1)]);
    assert(seq![SentenceV::Choice(c1)].drop_last() =~= Seq::<SentenceV>::empty());
    assert(cs =~= seq![c1, c2]);
    assert(choice_weights(cs) =~= seq![c1.weight, c2.weight]);
    assert(seq![c1.weight, c2.weight].drop_last() =~= seq![c1.weight]);
    assert(seq![c1.weight].drop_last() =~= Seq::<u32>::empty());
    assert(total_weight(choice_weights(cs)) == c1.weight + c2.weight);
    assert(cs[0] == c1 && cs[1] == c2);
    lemma_rule_choice_pick(p, r.sentences, env, 0, Ok(l1), fuel);
    lemma_rule_choice_pick(p, r.sentences, env, 1, Ok(l2), fuel);
    lemma_body_end(p, r.sentences, env, Ok(l1), fuel);
    lemma_body_end(p, r.sentences, env, Ok(l2), fuel);
    assert(r.sentences[1] is Choice && r.sentences[0] is Choice);
    lemma_body_choice(p, r.sentences, 1, env, Ok(l1), fuel);
    lemma_body_choice(p, r.sentences, 0, env, Ok(l1), fuel);
    lemma_body_choice(p, r.sentences, 1, env, Ok(l2), fuel);
    lemma_body_choice(p, r.sentences, 0, env, Ok(l2), fuel);
    lemma_rule_intro(p, r, Ok(l1), fuel);
    lemma_rule_intro(p, r, Ok(l2), fuel);
}

/// End to end, the other direction: under the same grammar shape as
/// `lemma_prefix_and_name_outputs`, each of the two outputs is a permitted
/// outcome — together the two laws pin the outcome set down exactly.
pub proof fn lemma_prefix_and_name_attainable(
    p: ProgramV,
    m: RuleV,
    mc: ChoiceV,
    callee: RuleV,
    c1: ChoiceV,
    c2: ChoiceV,
    prefix: Seq<char>,
    nm: Seq<char>,
    l1: Seq<char>,
    l2: Seq<char>,
    fuel: nat,
)
    requires
        fuel >= 2,
        lookup_rule(p.rules, "main"@) == Some(m),
        m.sentences == seq![SentenceV::Choice(mc)],
        mc.weight > 0,
        mc.items == seq![
            ItemV { prob: 100, expr: ExprV::Literal(prefix) },
            ItemV { prob: 100, expr: ExprV::Rule(nm) },
        ],
        lookup_rule(p.rules, nm) == Some(callee),
        callee.sentences == seq![SentenceV::Choice(c1), SentenceV::Choice(c2)],
        c1.weight > 0,
        c2.weight > 0,
        c1.items == seq![ItemV { prob: 100, expr: ExprV::Literal(l1) }],
        c2.items == seq![ItemV { prob: 100, expr: ExprV::Literal(l2) }],
    ensures
        gen_out(p, Ok(prefix + l1), fuel),
        gen_out(p, Ok(prefix + l2), fuel),
{
    lemma_two_literal_rule_attainable(p, callee, c1, c2, l1, l2, (fuel - 1) as nat);
    let env = Seq::<(Seq<char>, Seq<char>)>::empty();
    let e = Seq::<char>::empty();
    let cs = choices_of(m.sentences);
    reveal_with_fuel(choices_of, 3);
    reveal_with_fuel(total_weight, 3);
    assert(m.sentences.drop_last() =~= Seq::<SentenceV>::empty());
    assert(cs =~= seq![mc]);
    assert(choice_weights(cs) =~= seq![mc.weight]);
    assert(seq![mc.weight].drop_last() =~= Seq::<u32>::empty());
    assert(total_weight(choice_weights(cs)) == mc.weight);
    assert(mc.items[0] == ItemV { prob: 100, expr: ExprV::Literal(prefix) });
    assert(mc.items[1] == ItemV { prob: 100, expr: ExprV::Rule(nm) });
    assert(m.sentences[0] is Choice);
    assert(cs[0] == mc);

    assert(expr_out(p, env, mc.items[1].expr, Ok(l1), fuel));
    assert(expr_out(p, env, mc.items[1].expr, Ok(l2), fuel));
    assert(expr_out(p, env, mc.items[0].expr, Ok(prefix), fuel));

    let acc1 = e.add(prefix);
    assert(acc1.add(l1) =~= prefix + l1);
    assert(items_out(p, mc.items, 2, env, acc1.add(l1), Ok(prefix + l1), fuel));
    lemma_items_include(p, mc.items, 1, env, acc1, l1, Ok(prefix + l1), fuel);
    lemma_items_include(p, mc.items, 0, env, e, prefix, Ok(prefix + l1), fuel);
    lemma_rule_choice_pick(p, m.sentences, env, 0, Ok(prefix + l1), fuel);
    lemma_body_end(p, m.sentences, env, Ok(prefix + l1), fuel);
    lemma_body_choice(p, m.sentences, 0, env, Ok(prefix + l1), fuel);
    lemma_rule_intro(p, m, Ok(prefix + l1), fuel);

    assert(acc1.add(l2) =~= prefix + l2);
    assert(items_out(p, mc.items, 2, env, acc1.add(l2), Ok(prefix + l2), fuel));
    lemma_items_include(p, mc.items, 1, env, acc1, l2, Ok(prefix + l2), fuel);
    lemma_items_include(p, mc.items, 0, env, e, prefix, Ok(prefix + l2), fuel);
    lemma_rule_choice_pick(p, m.sentences, env, 0, Ok(prefix + l2), fuel);
    lemma_body_end(p, m.sentences, env, Ok(prefix + l2), fuel);
    lemma_body_choice(p, m.sentences, 0, env, Ok(prefix + l2), fuel);
    lemma_rule_intro(p, m, Ok(prefix + l2), fuel);
}

} // verus!
