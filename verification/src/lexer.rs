//! The lexer: turns source text into a flat sequence of tokens.
//!
//! A token is a bare word (a maximal run of non-delimiter, non-whitespace
//! characters), a single-character structural symbol, or the body of a
//! quoted string. Whitespace separates tokens and produces none. Inside a
//! quoted region a backslash escapes the next character (`\n` becomes a
//! newline, anything else stands for itself); the region's content is
//! flushed as one token just before the closing `"` token, so a quoted
//! literal appears in the stream as `"`, body, `"` — and an empty literal
//! as two adjacent `"` tokens with no body between them.

use vstd::prelude::*;

verus! {

/// The structural single-character symbols of the language.
pub open spec fn is_delim(c: char) -> bool {
    c == '{' || c == '}' || c == '[' || c == ']' || c == '(' || c == ')' || c == '?' || c == '%'
        || c == '$'
}

/// Whitespace: a separator that yields no token.
pub open spec fn is_space(c: char) -> bool {
    c == ' ' || c == '\t' || c == '\n' || c == '\r'
}

/// The lexer's state after reading some prefix of the source.
pub struct LexState {
    /// Inside a quoted region.
    pub in_quote: bool,
    /// The character just read was a backslash inside a quoted region.
    pub escaped: bool,
    /// The token accumulated so far and not yet flushed.
    pub cur: Seq<char>,
    /// The tokens emitted so far.
    pub out: Seq<Seq<char>>,
}

pub open spec fn lex_init() -> LexState {
    LexState { in_quote: false, escaped: false, cur: Seq::empty(), out: Seq::empty() }
}

/// The tokens emitted so far, with a non-empty pending token flushed after them.
pub open spec fn flushed(st: LexState) -> Seq<Seq<char>> {
    if st.cur.len() == 0 {
        st.out
    } else {
        st.out.push(st.cur)
    }
}

/// One step of the lexer on the next source character.
pub open spec fn lex_step(st: LexState, c: char) -> LexState {
    if st.in_quote {
        if st.escaped {
            let t = if c == 'n' {
                '\n'
            } else {
                c
            };
            LexState { escaped: false, cur: st.cur.push(t), ..st }
        } else if c == '\\' {
            LexState { escaped: true, ..st }
        } else if c == '"' {
            LexState {
                in_quote: false,
                escaped: false,
                cur: Seq::empty(),
                out: flushed(st).push(seq!['"']),
            }
        } else {
            LexState { cur: st.cur.push(c), ..st }
        }
    } else {
        if c == '"' {
            LexState {
                in_quote: true,
                escaped: st.escaped,
                cur: Seq::empty(),
                out: flushed(st).push(seq!['"']),
            }
        } else if is_space(c) {
            LexState { cur: Seq::empty(), out: flushed(st), ..st }
        } else if is_delim(c) {
            LexState { cur: Seq::empty(), out: flushed(st).push(seq![c]), ..st }
        } else {
            LexState { cur: st.cur.push(c), ..st }
        }
    }
}

/// The lexer's state after reading the first `i` characters of `s`.
pub open spec fn lex_run(s: Seq<char>, i: int) -> LexState
    decreases i,
{
    if i <= 0 {
        lex_init()
    } else {
        lex_step(lex_run(s, i - 1), s[i - 1])
    }
}

/// The token sequence of the whole source: run the lexer over `s`,
/// then flush whatever token is still pending.
pub open spec fn tokenize_spec(s: Seq<char>) -> Seq<Seq<char>> {
    flushed(lex_run(s, s.len() as int))
}

/// Splits source text into tokens.
pub fn tokenize(s: &str) -> (r: Vec<String>)
    ensures
        r.deep_view() == tokenize_spec(s@),
{
    let n = s.unicode_len();
    let mut in_quote = false;
    let mut escaped = false;
    let mut token = String::new();
    let mut tokens: Vec<String> = Vec::new();
    let mut i: usize = 0;
    proof {
        assert(tokens.deep_view() =~= lex_init().out);
        assert(token@ =~= lex_init().cur);
    }
    while i < n
        invariant
            n == s@.len(),
            i <= n,
            lex_run(s@, i as int) == (LexState {
                in_quote: in_quote,
                escaped: escaped,
                cur: token@,
                out: tokens.deep_view(),
            }),
        decreases n - i,
    {
        let c = s.get_char(i);
        let ghost st = lex_run(s@, i as int);
        if in_quote {
            if escaped {
                if c == 'n' {
                    push_char(&mut token, '\n');
                } else {
                    push_char(&mut token, c);
                }
                escaped = false;
            } else if c == '\\' {
                escaped = true;
            } else if c == '"' {
                flush(&mut tokens, &mut token);
                tokens.push(String::from_str("\""));
                in_quote = false;
                proof {
                    reveal_strlit("\"");
                    assert(("\"")@ =~= seq!['"']);
                    assert(tokens.deep_view() =~~= lex_step(st, c).out);
                }
            } else {
                push_char(&mut token, c);
            }
        } else {
            if c == '"' {
                flush(&mut tokens, &mut token);
                tokens.push(String::from_str("\""));
                in_quote = true;
                proof {
                    reveal_strlit("\"");
                    assert(("\"")@ =~= seq!['"']);
                    assert(tokens.deep_view() =~~= lex_step(st, c).out);
                }
            } else if c == ' ' || c == '\t' || c == '\n' || c == '\r' {
                flush(&mut tokens, &mut token);
            } else if c == '{' || c == '}' || c == '[' || c == ']' || c == '(' || c == ')'
                || c == '?' || c == '%' || c == '$' {
                flush(&mut tokens, &mut token);
                let mut sym = String::new();
                push_char(&mut sym, c);
                tokens.push(sym);
                proof {
                    assert(tokens.deep_view() =~= lex_step(st, c).out);
                }
            } else {
                push_char(&mut token, c);
            }
        }
        proof {
            assert(token@ =~= lex_step(st, c).cur);
            assert(tokens.deep_view() =~~= lex_step(st, c).out);
            assert(in_quote == lex_step(st, c).in_quote);
            assert(escaped == lex_step(st, c).escaped);
            assert(lex_run(s@, i + 1) == lex_step(st, c));
        }
        i += 1;
    }
    flush(&mut tokens, &mut token);
    proof {
        assert(tokens.deep_view() =~= tokenize_spec(s@));
    }
    tokens
}

/// Relies on `String::push`: appends exactly the one character `c`.
#[verifier::external_body]
fn push_char(s: &mut String, c: char)
    ensures
        final(s)@ == old(s)@.push(c),
{
    s.push(c);
}

/// Moves the pending token, if non-empty, to the end of `tokens`.
fn flush(tokens: &mut Vec<String>, token: &mut String)
    ensures
        final(tokens).deep_view() == flushed(
            LexState {
                in_quote: false,
                escaped: false,
                cur: old(token)@,
                out: old(tokens).deep_view(),
            },
        ),
        final(token)@ == Seq::<char>::empty(),
{
    if token.unicode_len() > 0 {
        let t = token.clone();
        *token = String::new();
        tokens.push(t);
        proof {
            assert(tokens.deep_view() =~= old(tokens).deep_view().push(old(token)@));
        }
    } else {
        proof {
            assert(old(token)@ =~= Seq::<char>::empty());
            assert(tokens.deep_view() =~= old(tokens).deep_view());
        }
    }
}

} // verus!
