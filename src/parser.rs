//! The program builder: from source text to a list of commands.
use vstd::prelude::*;
use crate::command::{
    Command, CommandView, SyntaxErrorKind, SyntaxErrorKindView, parse_tokens, parse_token_list,
};
use crate::text::{chars_of, line_spans, lines_of, spans_are, word_spans, words_of};
use crate::token::{
    Keyword, Token, TokenView, read_words, span_words, spans_within, token_views, tokenize_spans,
};

verus! {

/// A line that is not a command.
#[derive(Clone, Debug)]
pub struct SyntaxError {
    /// The line's number, counted from 1.
    pub line: usize,
    pub kind: SyntaxErrorKind,
}

/// The index of the first token of `ts` at or after `i` that is an integer on
/// its own or a word that is no instruction, or the length of `ts` if none is.
pub open spec fn first_stray(ts: Seq<TokenView>, i: int) -> int
    decreases ts.len() - i,
{
    if i < 0 || i >= ts.len() {
        ts.len() as int
    } else if ts[i] is Operand || ts[i] is Illegal {
        i
    } else {
        first_stray(ts, i + 1)
    }
}

/// The tokens `ts` read from a line, where reading stopped at `stop`, if each
/// of them is an instruction and reading reached the end of the line; else
/// the first problem in reading order.
pub open spec fn checked_tokens(ts: Seq<TokenView>, stop: Option<Keyword>) -> Result<
    Seq<TokenView>,
    SyntaxErrorKindView,
> {
    let b = first_stray(ts, 0);
    if b < ts.len() && ts[b] is Operand {
        Err(SyntaxErrorKindView::MisplacedOperand(ts[b]->Operand_0))
    } else if b < ts.len() {
        Err(SyntaxErrorKindView::NotAnInstruction(ts[b]->Illegal_0))
    } else {
        match stop {
            Some(k) => Err(SyntaxErrorKindView::MissingOperand(k)),
            None => Ok(ts),
        }
    }
}

/// The tokens of the line `line`, or the first one that cannot stand in a command.
pub open spec fn line_tokens(line: Seq<char>) -> Result<Seq<TokenView>, SyntaxErrorKindView> {
    let (ts, stop) = read_words(words_of(line));
    checked_tokens(ts, stop)
}

/// The command that the line `line` makes, or why it makes none.
pub open spec fn parse_line(line: Seq<char>) -> Result<CommandView, SyntaxErrorKindView> {
    let (ts, stop) = read_words(words_of(line));
    parse_tokens(ts, stop)
}

/// Whether every line of `src` before line index `n` makes a command.
pub open spec fn lines_parse_before(src: Seq<char>, n: int) -> bool {
    forall|i: int| 0 <= i < n ==> (#[trigger] parse_line(lines_of(src)[i])) is Ok
}

/// Turns program text into commands, one line at a time.
///
/// Lines are independent of one another, so a parser holds no state.
pub struct Parser {}

proof fn lemma_spans_words(t: Seq<char>, spans: Seq<(usize, usize)>, pieces: Seq<Seq<char>>, from: int, to: int)
    requires
        spans_are(t, spans, pieces, from, to),
        to <= t.len(),
    ensures
        span_words(t, spans) == pieces,
        spans_within(t, spans),
{
    assert(span_words(t, spans) =~= pieces);
}

/// The command made by the characters `t[from..to]` of `src`.
fn parse_span(src: &str, t: &Vec<char>, from: usize, to: usize) -> (r: Result<Command, SyntaxErrorKind>)
    requires
        t@ == src@,
        from <= to <= t@.len(),
    ensures
        match r {
            Ok(c) => parse_line(t@.subrange(from as int, to as int)) == Ok::<CommandView, SyntaxErrorKindView>(c@),
            Err(e) => parse_line(t@.subrange(from as int, to as int)) == Err::<CommandView, SyntaxErrorKindView>(e@),
        },
{
    let words = word_spans(t, from, to);
    proof {
        lemma_spans_words(t@, words@, words_of(t@.subrange(from as int, to as int)), from as int, to as int);
    }
    let (tokens, stop) = tokenize_spans(src, t, &words);
    parse_token_list(&tokens, stop)
}

impl Parser {
    /// A parser.
    pub fn new() -> (r: Parser) {
        Parser {  }
    }

    /// The tokens of the line `line`, read left to right; or the first one
    /// that cannot stand in a command: an integer on its own, a word that is
    /// no instruction, or a keyword without its operand.
    #[verifier::loop_isolation(false)]
    pub fn tokenize(&self, line: &str) -> (r: Result<Vec<Token>, SyntaxErrorKind>)
        ensures
            match r {
                Ok(ts) => line_tokens(line@) == Ok::<Seq<TokenView>, SyntaxErrorKindView>(token_views(ts@)),
                Err(e) => line_tokens(line@) == Err::<Seq<TokenView>, SyntaxErrorKindView>(e@),
            },
    {
        let t = chars_of(line);
        let words = word_spans(&t, 0, t.len());
        assert(t@.subrange(0, t@.len() as int) =~= t@);
        proof {
            lemma_spans_words(t@, words@, words_of(t@), 0, t@.len() as int);
        }
        let (tokens, stop) = tokenize_spans(line, &t, &words);
        let ghost ts = token_views(tokens@);
        let mut i: usize = 0;
        while i < tokens.len()
            invariant
                i <= tokens@.len(),
                first_stray(ts, 0) == first_stray(ts, i as int),
            decreases tokens@.len() - i,
        {
            assert(ts[i as int] == tokens@[i as int]@);
            match &tokens[i] {
                Token::Operand(n) => {
                    return Err(SyntaxErrorKind::MisplacedOperand(*n));
                },
                Token::Illegal(w) => {
                    return Err(SyntaxErrorKind::NotAnInstruction(w.clone()));
                },
                _ => {},
            }
            i = i + 1;
        }
        match stop {
            Some(k) => Err(SyntaxErrorKind::MissingOperand(k)),
            None => Ok(tokens),
        }
    }

    /// The command that the line `line` makes, or why it makes none.
    pub fn parse_command(&self, line: &str) -> (r: Result<Command, SyntaxErrorKind>)
        ensures
            match r {
                Ok(c) => parse_line(line@) == Ok::<CommandView, SyntaxErrorKindView>(c@),
                Err(e) => parse_line(line@) == Err::<CommandView, SyntaxErrorKindView>(e@),
            },
    {
        let t = chars_of(line);
        assert(t@.subrange(0, t@.len() as int) =~= t@);
        parse_span(line, &t, 0, t.len())
    }

    /// The commands of the program `src`, one per line and in the order of the
    /// lines; or, if some line makes no command, the first such line.
    pub fn parse_algorithm(&self, src: &str) -> (r: Result<Vec<Command>, SyntaxError>)
        ensures
            match r {
                Ok(cmds) => {
                    &&& lines_parse_before(src@, lines_of(src@).len() as int)
                    &&& cmds@.len() == lines_of(src@).len()
                    &&& forall|i: int|
                        0 <= i < cmds@.len() ==> parse_line(lines_of(src@)[i]) == Ok::<
                            CommandView,
                            SyntaxErrorKindView,
                        >((#[trigger] cmds@[i])@)
                },
                Err(e) => {
                    &&& 1 <= e.line <= lines_of(src@).len()
                    &&& lines_parse_before(src@, e.line - 1)
                    &&& parse_line(lines_of(src@)[e.line - 1]) == Err::<CommandView, SyntaxErrorKindView>(
                        e.kind@,
                    )
                },
            },
    {
        let t = chars_of(src);
        let lines = line_spans(&t);
        let ghost ls = lines_of(src@);
        let mut cmds: Vec<Command> = Vec::new();
        let mut i: usize = 0;
        while i < lines.len()
            invariant
                t@ == src@,
                ls == lines_of(src@),
                spans_are(t@, lines@, ls, 0, t@.len() as int),
                i <= lines@.len(),
                cmds@.len() == i,
                lines_parse_before(src@, i as int),
                forall|j: int|
                    0 <= j < i ==> parse_line(ls[j]) == Ok::<CommandView, SyntaxErrorKindView>(
                        (#[trigger] cmds@[j])@,
                    ),
            decreases lines@.len() - i,
        {
            let (a, b) = lines[i];
            assert(ls[i as int] == t@.subrange(a as int, b as int));
            match parse_span(src, &t, a, b) {
                Ok(c) => {
                    cmds.push(c);
                },
                Err(kind) => {
                    return Err(SyntaxError { line: i + 1, kind });
                },
            }
            i = i + 1;
        }
        Ok(cmds)
    }
}

} // verus!
