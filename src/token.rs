//! Tokens: the words of one line, with each argument-taking keyword joined to
//! the operand that follows it.
use vstd::prelude::*;
use vstd::string::StrSliceExecFns;
use crate::number::{operand_of, parse_operand};

verus! {

/// The keywords that take an integer operand.
#[derive(Clone, Copy, Debug, PartialEq, Eq, Structural)]
pub enum Keyword {
    If,
    Write,
    Mover,
    Movel,
    Goto,
}

/// One lexical unit of a line.
#[derive(Clone, Debug)]
pub enum Token {
    /// A signed integer standing on its own.
    Operand(i32),
    If(i32),
    Write(i32),
    Mover(i32),
    Movel(i32),
    Goto(i32),
    Erase,
    Halt,
    /// A word that is neither a keyword nor an integer.
    Illegal(String),
    EndOfInput,
}

/// A [`Token`] with its text as a sequence of characters.
pub enum TokenView {
    Operand(i32),
    If(i32),
    Write(i32),
    Mover(i32),
    Movel(i32),
    Goto(i32),
    Erase,
    Halt,
    Illegal(Seq<char>),
    EndOfInput,
}

impl View for Token {
    type V = TokenView;

    open spec fn view(&self) -> TokenView {
        match self {
            Token::Operand(n) => TokenView::Operand(*n),
            Token::If(n) => TokenView::If(*n),
            Token::Write(n) => TokenView::Write(*n),
            Token::Mover(n) => TokenView::Mover(*n),
            Token::Movel(n) => TokenView::Movel(*n),
            Token::Goto(n) => TokenView::Goto(*n),
            Token::Erase => TokenView::Erase,
            Token::Halt => TokenView::Halt,
            Token::Illegal(w) => TokenView::Illegal(w@),
            Token::EndOfInput => TokenView::EndOfInput,
        }
    }
}

/// The views of `ts`, in order.
pub open spec fn token_views(ts: Seq<Token>) -> Seq<TokenView> {
    ts.map_values(|t: Token| t@)
}

/// The argument-taking keyword that `w` spells, if any.
pub open spec fn keyword_of(w: Seq<char>) -> Option<Keyword> {
    if w == seq!['i', 'f'] {
        Some(Keyword::If)
    } else if w == seq!['w', 'r', 'i', 't', 'e'] {
        Some(Keyword::Write)
    } else if w == seq!['m', 'o', 'v', 'e', 'r'] {
        Some(Keyword::Mover)
    } else if w == seq!['m', 'o', 'v', 'e', 'l'] {
        Some(Keyword::Movel)
    } else if w == seq!['g', 'o', 't', 'o'] {
        Some(Keyword::Goto)
    } else {
        None
    }
}

/// The token of keyword `k` with operand `n`.
pub open spec fn keyed(k: Keyword, n: i32) -> TokenView {
    match k {
        Keyword::If => TokenView::If(n),
        Keyword::Write => TokenView::Write(n),
        Keyword::Mover => TokenView::Mover(n),
        Keyword::Movel => TokenView::Movel(n),
        Keyword::Goto => TokenView::Goto(n),
    }
}

/// The token of a word that is neither an integer nor an argument-taking keyword.
pub open spec fn plain_token(w: Seq<char>) -> TokenView {
    if w == seq!['e', 'r', 'a', 's', 'e'] {
        TokenView::Erase
    } else if w == seq!['h', 'a', 'l', 't'] {
        TokenView::Halt
    } else {
        TokenView::Illegal(w)
    }
}

/// The token that starts at word `i` of `ws` and the index of the word after
/// it, or the keyword at `i` when no operand follows it.
pub open spec fn token_at(ws: Seq<Seq<char>>, i: int) -> Result<(TokenView, int), Keyword> {
    if i >= ws.len() {
        Ok((TokenView::EndOfInput, i))
    } else if operand_of(ws[i]) is Some {
        Ok((TokenView::Operand(operand_of(ws[i])->0), i + 1))
    } else if keyword_of(ws[i]) is Some {
        let k = keyword_of(ws[i])->0;
        if i + 1 < ws.len() && operand_of(ws[i + 1]) is Some {
            Ok((keyed(k, operand_of(ws[i + 1])->0), i + 2))
        } else {
            Err(k)
        }
    } else {
        Ok((plain_token(ws[i]), i + 1))
    }
}

/// Reading the words `ws[i..]` one token at a time: the tokens read, and the
/// keyword at which reading stopped because no operand followed it, if any.
pub open spec fn read_from(ws: Seq<Seq<char>>, i: int) -> (Seq<TokenView>, Option<Keyword>)
    decreases ws.len() - i,
{
    if i < 0 || i >= ws.len() {
        (seq![], None)
    } else {
        match token_at(ws, i) {
            Ok((t, j)) => {
                let (rest, stop) = read_from(ws, j);
                (seq![t] + rest, stop)
            },
            Err(k) => (seq![], Some(k)),
        }
    }
}

/// Reading all the words `ws` one token at a time (see [`read_from`]).
pub open spec fn read_words(ws: Seq<Seq<char>>) -> (Seq<TokenView>, Option<Keyword>) {
    read_from(ws, 0)
}

/// The words of `t` that `spans` mark.
pub open spec fn span_words(t: Seq<char>, spans: Seq<(usize, usize)>) -> Seq<Seq<char>> {
    spans.map_values(|s: (usize, usize)| t.subrange(s.0 as int, s.1 as int))
}

/// Whether every span of `spans` lies within `t`.
pub open spec fn spans_within(t: Seq<char>, spans: Seq<(usize, usize)>) -> bool {
    forall|k: int| 0 <= k < spans.len() ==> (#[trigger] spans[k]).0 <= spans[k].1 <= t.len()
}

/// Whether `t[from..to]` is the word `w`.
fn span_is(t: &Vec<char>, from: usize, to: usize, w: &Vec<char>) -> (r: bool)
    requires
        from <= to <= t@.len(),
    ensures
        r == (t@.subrange(from as int, to as int) == w@),
{
    if to - from != w.len() {
        return false;
    }
    let mut k: usize = 0;
    while k < w.len()
        invariant
            from <= to <= t@.len(),
            to - from == w@.len(),
            k <= w@.len(),
            forall|m: int| 0 <= m < k ==> t@[from + m] == w@[m],
        decreases w@.len() - k,
    {
        if t[from + k] != w[k] {
            assert(t@.subrange(from as int, to as int)[k as int] != w@[k as int]);
            return false;
        }
        k = k + 1;
    }
    assert(t@.subrange(from as int, to as int) =~= w@);
    true
}

/// The argument-taking keyword that `t[from..to]` spells, if any.
fn keyword_at(t: &Vec<char>, from: usize, to: usize) -> (r: Option<Keyword>)
    requires
        from <= to <= t@.len(),
    ensures
        r == keyword_of(t@.subrange(from as int, to as int)),
{
    if span_is(t, from, to, &vec!['i', 'f']) {
        Some(Keyword::If)
    } else if span_is(t, from, to, &vec!['w', 'r', 'i', 't', 'e']) {
        Some(Keyword::Write)
    } else if span_is(t, from, to, &vec!['m', 'o', 'v', 'e', 'r']) {
        Some(Keyword::Mover)
    } else if span_is(t, from, to, &vec!['m', 'o', 'v', 'e', 'l']) {
        Some(Keyword::Movel)
    } else if span_is(t, from, to, &vec!['g', 'o', 't', 'o']) {
        Some(Keyword::Goto)
    } else {
        None
    }
}

/// The token that starts at word `i`, and the index of the word after it.
///
/// `src` is the text, `t` its characters and `spans` the positions of the words.
pub fn next_token(src: &str, t: &Vec<char>, spans: &Vec<(usize, usize)>, i: usize) -> (r: Result<
    (Token, usize),
    Keyword,
>)
    requires
        t@ == src@,
        spans_within(t@, spans@),
    ensures
        match r {
            Ok((tok, j)) => token_at(span_words(t@, spans@), i as int) == Ok::<
                (TokenView, int),
                Keyword,
            >((tok@, j as int)),
            Err(k) => token_at(span_words(t@, spans@), i as int) == Err::<(TokenView, int), Keyword>(k),
        },
{
    let ghost ws = span_words(t@, spans@);
    if i >= spans.len() {
        return Ok((Token::EndOfInput, i));
    }
    let (from, to) = spans[i];
    assert(ws[i as int] == t@.subrange(from as int, to as int));
    if let Some(n) = parse_operand(t, from, to) {
        return Ok((Token::Operand(n), i + 1));
    }
    if let Some(k) = keyword_at(t, from, to) {
        if i + 1 < spans.len() {
            let (a, b) = spans[i + 1];
            assert(ws[i + 1] == t@.subrange(a as int, b as int));
            if let Some(n) = parse_operand(t, a, b) {
                let tok = match k {
                    Keyword::If => Token::If(n),
                    Keyword::Write => Token::Write(n),
                    Keyword::Mover => Token::Mover(n),
                    Keyword::Movel => Token::Movel(n),
                    Keyword::Goto => Token::Goto(n),
                };
                return Ok((tok, i + 2));
            }
        }
        return Err(k);
    }
    if span_is(t, from, to, &vec!['e', 'r', 'a', 's', 'e']) {
        Ok((Token::Erase, i + 1))
    } else if span_is(t, from, to, &vec!['h', 'a', 'l', 't']) {
        Ok((Token::Halt, i + 1))
    } else {
        let word = src.substring_char(from, to).to_owned();
        Ok((Token::Illegal(word), i + 1))
    }
}

/// Reads all the words that `spans` marks in `t`: the tokens read, and the
/// keyword at which reading stopped for want of an operand, if any.
pub fn tokenize_spans(src: &str, t: &Vec<char>, spans: &Vec<(usize, usize)>) -> (r: (
    Vec<Token>,
    Option<Keyword>,
))
    requires
        t@ == src@,
        spans_within(t@, spans@),
    ensures
        read_words(span_words(t@, spans@)) == (token_views(r.0@), r.1),
{
    let ghost ws = span_words(t@, spans@);
    let mut out: Vec<Token> = Vec::new();
    let mut i: usize = 0;
    assert(token_views(out@) + read_from(ws, 0).0 =~= read_from(ws, 0).0);
    while i < spans.len()
        invariant
            t@ == src@,
            spans_within(t@, spans@),
            ws == span_words(t@, spans@),
            i <= spans@.len(),
            read_words(ws).0 == token_views(out@) + read_from(ws, i as int).0,
            read_words(ws).1 == read_from(ws, i as int).1,
        decreases spans@.len() - i,
    {
        match next_token(src, t, spans, i) {
            Ok((tok, j)) => {
                let ghost done = token_views(out@);
                let ghost rest = read_from(ws, j as int).0;
                assert(done + (seq![tok@] + rest) =~= done.push(tok@) + rest);
                out.push(tok);
                assert(token_views(out@) =~= done.push(tok@));
                i = j;
            },
            Err(k) => {
                assert(token_views(out@) + Seq::<TokenView>::empty() =~= token_views(out@));
                return (out, Some(k));
            },
        }
    }
    assert(token_views(out@) + Seq::<TokenView>::empty() =~= token_views(out@));
    (out, None)
}

} // verus!
