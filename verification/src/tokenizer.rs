//! The template tokenizer: lexes template text into alternating literal-text
//! and expression tokens, recognising the two-character markers `{{` and
//! `}}`. A lone `{` or `}` stays literal text.

use crate::shims::push_char;
use vstd::prelude::*;

verus! {

/// What a token holds.
#[derive(Debug, Clone, Copy, PartialEq, Eq)]
pub enum Kind {
    /// Literal text, emitted verbatim.
    Text,
    /// The content between `{{` and `}}`.
    Expression,
}

/// One lexed token.
pub struct Token {
    pub buffer: String,
    pub kind: Kind,
}

impl Token {
    /// An empty token of the given kind.
    pub fn new(kind: Kind) -> (r: Self)
        ensures
            r.kind == kind,
            r.buffer@ == Seq::<char>::empty(),
    {
        Token { buffer: String::new(), kind }
    }
}

/// The mathematical shape of a `Token`.
pub struct TokenV {
    pub kind: Kind,
    pub text: Seq<char>,
}

impl View for Token {
    type V = TokenV;

    open spec fn view(&self) -> TokenV {
        TokenV { kind: self.kind, text: self.buffer@ }
    }
}

/// The views of a token sequence.
pub open spec fn view_tokens(ts: Seq<Token>) -> Seq<TokenV> {
    ts.map_values(|t: Token| t@)
}

/// The lexer state: the tokens so far (always at least one; characters go to
/// the last one) and the two one-shot marker flags.
pub struct TokSt {
    pub toks: Seq<TokenV>,
    pub start: bool,
    pub end: bool,
}

/// The last token with one character appended.
pub open spec fn append_last(toks: Seq<TokenV>, c: char) -> Seq<TokenV> {
    toks.update(
        toks.len() - 1,
        TokenV { kind: toks.last().kind, text: toks.last().text.push(c) },
    )
}

/// A recognised `{{`: a fresh expression token opens; if an expression was
/// already open, an empty text token keeps the stream alternating.
pub open spec fn open_expr(toks: Seq<TokenV>) -> Seq<TokenV> {
    if toks.last().kind is Expression {
        toks + seq![
            TokenV { kind: Kind::Text, text: Seq::empty() },
            TokenV { kind: Kind::Expression, text: Seq::empty() },
        ]
    } else {
        toks.push(TokenV { kind: Kind::Expression, text: Seq::empty() })
    }
}

/// A recognised `}}`: the open expression closes and a fresh text token
/// begins; in plain text the marker is dropped.
pub open spec fn close_expr(toks: Seq<TokenV>) -> Seq<TokenV> {
    if toks.last().kind is Expression {
        toks.push(TokenV { kind: Kind::Text, text: Seq::empty() })
    } else {
        toks
    }
}

/// One character of lexing.
pub open spec fn tok_step(st: TokSt, c: char) -> TokSt {
    if c == '{' {
        if st.start {
            TokSt { toks: open_expr(st.toks), start: false, end: false }
        } else if st.end {
            TokSt { toks: append_last(st.toks, '}'), start: true, end: false }
        } else {
            TokSt { toks: st.toks, start: true, end: false }
        }
    } else if c == '}' {
        if st.end {
            TokSt { toks: close_expr(st.toks), start: false, end: false }
        } else if st.start {
            TokSt { toks: append_last(st.toks, '{'), start: false, end: true }
        } else {
            TokSt { toks: st.toks, start: false, end: true }
        }
    } else {
        let t = if st.start {
            append_last(st.toks, '{')
        } else if st.end {
            append_last(st.toks, '}')
        } else {
            st.toks
        };
        TokSt { toks: append_last(t, c), start: false, end: false }
    }
}

/// The lexer run over a character sequence, from a given state.
pub open spec fn tok_steps(st: TokSt, s: Seq<char>) -> TokSt
    decreases s.len(),
{
    if s.len() == 0 {
        st
    } else {
        tok_steps(tok_step(st, s[0]), s.drop_first())
    }
}

pub open spec fn tok_init() -> TokSt {
    TokSt {
        toks: seq![TokenV { kind: Kind::Text, text: Seq::empty() }],
        start: false,
        end: false,
    }
}

/// End of input: a still-pending lone brace becomes literal text.
pub open spec fn tok_finish(st: TokSt) -> Seq<TokenV> {
    if st.start {
        append_last(st.toks, '{')
    } else if st.end {
        append_last(st.toks, '}')
    } else {
        st.toks
    }
}

/// What lexing a template yields: one leading text token (possibly empty),
/// then strictly alternating expression and text tokens.
pub open spec fn tokenize_spec(s: Seq<char>) -> Seq<TokenV> {
    tok_finish(tok_steps(tok_init(), s))
}

/// Lexes template text into tokens.
pub fn tokenize(template: &str) -> (r: Vec<Token>)
    ensures
        view_tokens(r@) == tokenize_spec(template@),
{
    let n = template.unicode_len();
    let mut done: Vec<Token> = Vec::new();
    let mut cur = Token::new(Kind::Text);
    let mut start = false;
    let mut end = false;
    proof {
        assert(template@.skip(0) =~= template@);
        assert(view_tokens(done@).push(cur@) =~= tok_init().toks);
    }
    let mut i: usize = 0;
    while i < n
        invariant
            i <= n,
            n == template@.len(),
            !(start && end),
            tok_steps(tok_init(), template@) == tok_steps(
                TokSt { toks: view_tokens(done@).push(cur@), start: start, end: end },
                template@.skip(i as int),
            ),
        decreases n - i,
    {
        let ghost st = TokSt { toks: view_tokens(done@).push(cur@), start: start, end: end };
        let c = template.get_char(i);
        proof {
            assert(template@.skip(i as int)[0] == template@[i as int]);
            assert(template@.skip(i as int).drop_first() =~= template@.skip(i + 1));
            assert(st.toks.len() > 0);
            assert(st.toks.last() == cur@);
        }
        if c == '{' {
            if start {
                start = false;
                match cur.kind {
                    Kind::Expression => {
                        done.push(cur);
                        done.push(Token::new(Kind::Text));
                        cur = Token::new(Kind::Expression);
                        proof {
                            assert(view_tokens(done@).push(cur@) =~= open_expr(st.toks));
                        }
                    },
                    Kind::Text => {
                        done.push(cur);
                        cur = Token::new(Kind::Expression);
                        proof {
                            assert(view_tokens(done@).push(cur@) =~= open_expr(st.toks));
                        }
                    },
                }
            } else if end {
                end = false;
                push_char(&mut cur.buffer, '}');
                start = true;
                proof {
                    assert(view_tokens(done@).push(cur@) =~= append_last(st.toks, '}'));
                }
            } else {
                start = true;
            }
        } else if c == '}' {
            if end {
                end = false;
                match cur.kind {
                    Kind::Expression => {
                        done.push(cur);
                        cur = Token::new(Kind::Text);
                        proof {
                            assert(view_tokens(done@).push(cur@) =~= close_expr(st.toks));
                        }
                    },
                    Kind::Text => {
                        proof {
                            assert(view_tokens(done@).push(cur@) =~= close_expr(st.toks));
                        }
                    },
                }
            } else if start {
                start = false;
                push_char(&mut cur.buffer, '{');
                end = true;
                proof {
                    assert(view_tokens(done@).push(cur@) =~= append_last(st.toks, '{'));
                }
            } else {
                end = true;
            }
        } else {
            let ghost mid = st.toks;
            if start {
                start = false;
                push_char(&mut cur.buffer, '{');
                proof {
                    assert(view_tokens(done@).push(cur@) =~= append_last(st.toks, '{'));
                }
            } else if end {
                end = false;
                push_char(&mut cur.buffer, '}');
                proof {
                    assert(view_tokens(done@).push(cur@) =~= append_last(st.toks, '}'));
                }
            }
            let ghost mid2 = view_tokens(done@).push(cur@);
            push_char(&mut cur.buffer, c);
            proof {
                assert(view_tokens(done@).push(cur@) =~= append_last(mid2, c));
            }
        }
        proof {
            let st2 = TokSt { toks: view_tokens(done@).push(cur@), start: start, end: end };
            assert(tok_step(st, template@[i as int]) == st2);
        }
        i = i + 1;
    }
    proof {
        assert(template@.skip(n as int) =~= Seq::<char>::empty());
    }
    let ghost st_end = TokSt { toks: view_tokens(done@).push(cur@), start: start, end: end };
    if start {
        push_char(&mut cur.buffer, '{');
        proof {
            assert(view_tokens(done@).push(cur@) =~= append_last(st_end.toks, '{'));
        }
    } else if end {
        push_char(&mut cur.buffer, '}');
        proof {
            assert(view_tokens(done@).push(cur@) =~= append_last(st_end.toks, '}'));
        }
    }
    done.push(cur);
    proof {
        assert(view_tokens(done@) =~= tokenize_spec(template@));
    }
    done
}

} // verus!

verus! {

/// A well-shaped token stream: it starts with a literal-text token and
/// alternates text and expression tokens thereafter.
pub open spec fn alternating(toks: Seq<TokenV>) -> bool {
    &&& toks.len() >= 1
    &&& forall|i: int|
        0 <= i < toks.len() ==> (#[trigger] toks[i]).kind == (if i % 2 == 0 {
            Kind::Text
        } else {
            Kind::Expression
        })
}

proof fn lemma_append_last_alternating(toks: Seq<TokenV>, c: char)
    requires
        alternating(toks),
    ensures
        alternating(append_last(toks, c)),
{
    let r = append_last(toks, c);
    assert forall|i: int| 0 <= i < r.len() implies (#[trigger] r[i]).kind == (if i % 2 == 0 {
        Kind::Text
    } else {
        Kind::Expression
    }) by {
        assert(toks[i].kind == (if i % 2 == 0 {
            Kind::Text
        } else {
            Kind::Expression
        }));
    }
}

proof fn lemma_tok_step_alternating(st: TokSt, c: char)
    requires
        alternating(st.toks),
    ensures
        alternating(tok_step(st, c).toks),
{
    let n = st.toks.len();
    assert(st.toks[n - 1].kind == (if (n - 1) % 2 == 0 {
        Kind::Text
    } else {
        Kind::Expression
    }));
    lemma_append_last_alternating(st.toks, '{');
    lemma_append_last_alternating(st.toks, '}');
    lemma_append_last_alternating(append_last(st.toks, '{'), c);
    lemma_append_last_alternating(append_last(st.toks, '}'), c);
    lemma_append_last_alternating(st.toks, c);
}

proof fn lemma_tok_steps_alternating(st: TokSt, s: Seq<char>)
    requires
        alternating(st.toks),
    ensures
        alternating(tok_steps(st, s).toks),
    decreases s.len(),
{
    if s.len() > 0 {
        lemma_tok_step_alternating(st, s[0]);
        lemma_tok_steps_alternating(tok_step(st, s[0]), s.drop_first());
    }
}

/// The lexer's output shape, for every input: one leading literal-text token
/// (possibly empty), then strictly alternating expression and text tokens.
pub proof fn lemma_tokenize_alternates(s: Seq<char>)
    ensures
        alternating(tokenize_spec(s)),
{
    lemma_tok_steps_alternating(tok_init(), s);
    let st = tok_steps(tok_init(), s);
    lemma_append_last_alternating(st.toks, '{');
    lemma_append_last_alternating(st.toks, '}');
}

} // verus!
