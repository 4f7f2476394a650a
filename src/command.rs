//! Commands: one compiled line, with its guard, body and terminator.
use vstd::prelude::*;
use crate::token::{Keyword, Token, TokenView, token_views};

verus! {

/// An instruction of a command's body.
#[derive(Clone, Copy, Debug, PartialEq, Eq, Structural)]
pub enum Instruction {
    /// Sets the cell under the head to 0.
    Erase,
    /// Sets the cell under the head to the operand.
    Write(i32),
    /// Subtracts the operand from the head position.
    Mover(i32),
    /// Adds the operand to the head position.
    Movel(i32),
}

/// How a command ends.
#[derive(Clone, Copy, Debug, PartialEq, Eq, Structural)]
pub enum Terminator {
    /// Continues at the given line, counted from 1.
    Goto(i32),
    /// Stops the run.
    Halt,
}

/// One line of a program.
#[derive(Clone, Debug)]
pub struct Command {
    /// When present, the body and terminator run only if the cell under the
    /// head holds this value.
    pub condition: Option<i32>,
    pub body: Vec<Instruction>,
    pub terminator: Terminator,
}

/// A [`Command`] with its body as a sequence.
pub struct CommandView {
    pub condition: Option<i32>,
    pub body: Seq<Instruction>,
    pub terminator: Terminator,
}

impl View for Command {
    type V = CommandView;

    open spec fn view(&self) -> CommandView {
        CommandView { condition: self.condition, body: self.body@, terminator: self.terminator }
    }
}

/// Why a line is not a command.
#[derive(Clone, Debug)]
pub enum SyntaxErrorKind {
    /// An argument-taking keyword is not followed by an integer.
    MissingOperand(Keyword),
    /// An integer stands where an instruction should.
    MisplacedOperand(i32),
    /// A word is neither an instruction nor an integer.
    NotAnInstruction(String),
    /// An `if` stands after the start of the line.
    ConditionNotAtStart(i32),
    /// A `goto` or `halt` is followed by more tokens.
    TerminatorNotAtEnd,
    /// The line does not end with `goto` or `halt`.
    MissingTerminator,
}

/// A [`SyntaxErrorKind`] with its text as a sequence of characters.
pub enum SyntaxErrorKindView {
    MissingOperand(Keyword),
    MisplacedOperand(i32),
    NotAnInstruction(Seq<char>),
    ConditionNotAtStart(i32),
    TerminatorNotAtEnd,
    MissingTerminator,
}

impl View for SyntaxErrorKind {
    type V = SyntaxErrorKindView;

    open spec fn view(&self) -> SyntaxErrorKindView {
        match self {
            SyntaxErrorKind::MissingOperand(k) => SyntaxErrorKindView::MissingOperand(*k),
            SyntaxErrorKind::MisplacedOperand(n) => SyntaxErrorKindView::MisplacedOperand(*n),
            SyntaxErrorKind::NotAnInstruction(w) => SyntaxErrorKindView::NotAnInstruction(w@),
            SyntaxErrorKind::ConditionNotAtStart(n) => SyntaxErrorKindView::ConditionNotAtStart(*n),
            SyntaxErrorKind::TerminatorNotAtEnd => SyntaxErrorKindView::TerminatorNotAtEnd,
            SyntaxErrorKind::MissingTerminator => SyntaxErrorKindView::MissingTerminator,
        }
    }
}

/// Whether `t` is an instruction that may stand in a body.
pub open spec fn is_body_token(t: TokenView) -> bool {
    t is Erase || t is Write || t is Mover || t is Movel
}

/// The body instruction that the body token `t` stands for.
pub open spec fn body_instruction(t: TokenView) -> Instruction {
    match t {
        TokenView::Write(n) => Instruction::Write(n),
        TokenView::Mover(n) => Instruction::Mover(n),
        TokenView::Movel(n) => Instruction::Movel(n),
        _ => Instruction::Erase,
    }
}

/// The token that the instruction `i` is written as.
pub open spec fn instruction_token(i: Instruction) -> TokenView {
    match i {
        Instruction::Erase => TokenView::Erase,
        Instruction::Write(n) => TokenView::Write(n),
        Instruction::Mover(n) => TokenView::Mover(n),
        Instruction::Movel(n) => TokenView::Movel(n),
    }
}

/// The token that the terminator `t` is written as.
pub open spec fn terminator_token(t: Terminator) -> TokenView {
    match t {
        Terminator::Goto(n) => TokenView::Goto(n),
        Terminator::Halt => TokenView::Halt,
    }
}

/// The guard that `ts` opens with, if it opens with an `if`.
pub open spec fn condition_of(ts: Seq<TokenView>) -> Option<i32> {
    if ts.len() > 0 && ts[0] is If {
        Some(ts[0]->If_0)
    } else {
        None
    }
}

/// Where the body of `ts` starts: after the guard, if there is one.
pub open spec fn body_start(ts: Seq<TokenView>) -> int {
    if condition_of(ts) is Some {
        1
    } else {
        0
    }
}

/// The index of the first token of `ts` at or after `i` that is not a body
/// instruction, or the length of `ts` if there is none.
pub open spec fn body_end(ts: Seq<TokenView>, i: int) -> int
    decreases ts.len() - i,
{
    if i < 0 || i >= ts.len() {
        ts.len() as int
    } else if is_body_token(ts[i]) {
        body_end(ts, i + 1)
    } else {
        i
    }
}

/// The command that the tokens `ts` of one line make, or why they make none;
/// `stop` is the keyword, if any, at which reading the line stopped after `ts`
/// because no operand followed it.
///
/// Tokens are read one at a time, and the first problem met wins. After the
/// optional guard, tokens are read until the first one that is not a body
/// instruction; that one must be `goto` or `halt`, and reading the token after
/// it must find the end of the line. Reading past the last token of `ts` meets
/// `stop`. An `EndOfInput` token ends the input wherever it stands.
pub open spec fn parse_tokens(ts: Seq<TokenView>, stop: Option<Keyword>) -> Result<
    CommandView,
    SyntaxErrorKindView,
> {
    let start = body_start(ts);
    let k = body_end(ts, start);
    let body = ts.subrange(start, k).map_values(|t: TokenView| body_instruction(t));
    if k >= ts.len() {
        match stop {
            Some(kw) => Err(SyntaxErrorKindView::MissingOperand(kw)),
            None => Err(SyntaxErrorKindView::MissingTerminator),
        }
    } else {
        let terminator = match ts[k] {
            TokenView::Goto(n) => Some(Terminator::Goto(n)),
            TokenView::Halt => Some(Terminator::Halt),
            _ => None,
        };
        match terminator {
            Some(term) => if k + 1 < ts.len() && !(ts[k + 1] is EndOfInput) {
                Err(SyntaxErrorKindView::TerminatorNotAtEnd)
            } else if k + 1 >= ts.len() && stop is Some {
                Err(SyntaxErrorKindView::MissingOperand(stop->0))
            } else {
                Ok(CommandView { condition: condition_of(ts), body, terminator: term })
            },
            None => match ts[k] {
                TokenView::If(n) => Err(SyntaxErrorKindView::ConditionNotAtStart(n)),
                TokenView::Operand(n) => Err(SyntaxErrorKindView::MisplacedOperand(n)),
                TokenView::Illegal(w) => Err(SyntaxErrorKindView::NotAnInstruction(w)),
                _ => Err(SyntaxErrorKindView::MissingTerminator),
            },
        }
    }
}

/// The tokens that the command `c` is written as.
pub open spec fn command_tokens(c: CommandView) -> Seq<TokenView> {
    let guard = match c.condition {
        Some(n) => seq![TokenView::If(n)],
        None => seq![],
    };
    guard + c.body.map_values(|i: Instruction| instruction_token(i)) + seq![
        terminator_token(c.terminator),
    ]
}

impl Command {
    /// The tokens that this command is written as: its guard, its body and its
    /// terminator, in order.
    pub fn to_tokens(&self) -> (r: Vec<Token>)
        ensures
            token_views(r@) == command_tokens(self@),
    {
        let mut out: Vec<Token> = Vec::new();
        if let Some(n) = self.condition {
            out.push(Token::If(n));
        }
        let ghost guard = token_views(out@);
        let mut j: usize = 0;
        while j < self.body.len()
            invariant
                j <= self.body@.len(),
                guard == match self.condition {
                    Some(n) => seq![TokenView::If(n)],
                    None => Seq::<TokenView>::empty(),
                },
                token_views(out@) == guard + self.body@.subrange(0, j as int).map_values(
                    |i: Instruction| instruction_token(i),
                ),
            decreases self.body@.len() - j,
        {
            let tok = match self.body[j] {
                Instruction::Erase => Token::Erase,
                Instruction::Write(n) => Token::Write(n),
                Instruction::Mover(n) => Token::Mover(n),
                Instruction::Movel(n) => Token::Movel(n),
            };
            let ghost prev = token_views(out@);
            out.push(tok);
            assert(token_views(out@) =~= prev.push(tok@));
            assert(self.body@.subrange(0, j + 1).map_values(|i: Instruction| instruction_token(i))
                =~= self.body@.subrange(0, j as int).map_values(|i: Instruction| instruction_token(i)).push(
                instruction_token(self.body@[j as int]),
            ));
            j = j + 1;
        }
        assert(self.body@.subrange(0, self.body@.len() as int) =~= self.body@);
        let ghost prev = token_views(out@);
        let last = match self.terminator {
            Terminator::Goto(n) => Token::Goto(n),
            Terminator::Halt => Token::Halt,
        };
        out.push(last);
        assert(token_views(out@) =~= prev.push(last@));
        assert(token_views(out@) =~= command_tokens(self@));
        out
    }
}

/// The command that `tokens` make, or why they make none; `stop` is the
/// keyword, if any, that lacked its operand when reading stopped after `tokens`
/// (`None` for a complete list of tokens).
#[verifier::loop_isolation(false)]
pub fn parse_token_list(tokens: &Vec<Token>, stop: Option<Keyword>) -> (r: Result<Command, SyntaxErrorKind>)
    ensures
        match r {
            Ok(c) => parse_tokens(token_views(tokens@), stop) == Ok::<CommandView, SyntaxErrorKindView>(c@),
            Err(e) => parse_tokens(token_views(tokens@), stop) == Err::<CommandView, SyntaxErrorKindView>(e@),
        },
{
    let ghost ts = token_views(tokens@);
    let mut condition: Option<i32> = None;
    let mut i: usize = 0;
    if tokens.len() > 0 {
        if let Token::If(n) = &tokens[0] {
            condition = Some(*n);
            i = 1;
        }
    }
    assert(ts.len() > 0 ==> ts[0] == tokens@[0]@);
    let start: usize = i;
    let mut body: Vec<Instruction> = Vec::new();
    while i < tokens.len()
        invariant
            ts == token_views(tokens@),
            start == body_start(ts),
            condition == condition_of(ts),
            start <= i <= tokens@.len(),
            body_end(ts, start as int) == body_end(ts, i as int),
            body@ == ts.subrange(start as int, i as int).map_values(|t: TokenView| body_instruction(t)),
        decreases tokens@.len() - i,
    {
        let ghost prev = ts.subrange(start as int, i as int);
        assert(ts[i as int] == tokens@[i as int]@);
        let ins = match &tokens[i] {
            Token::Erase => Instruction::Erase,
            Token::Write(n) => Instruction::Write(*n),
            Token::Mover(n) => Instruction::Mover(*n),
            Token::Movel(n) => Instruction::Movel(*n),
            _ => {
                break;
            },
        };
        body.push(ins);
        i = i + 1;
        assert(ts.subrange(start as int, i as int) =~= prev.push(ts[i - 1]));
        assert(body@ =~= ts.subrange(start as int, i as int).map_values(|t: TokenView| body_instruction(t)));
    }
    let ghost k = body_end(ts, start as int);
    assert(k == i);
    if i >= tokens.len() {
        return match stop {
            Some(kw) => Err(SyntaxErrorKind::MissingOperand(kw)),
            None => Err(SyntaxErrorKind::MissingTerminator),
        };
    }
    assert(ts[i as int] == tokens@[i as int]@);
    let terminator = match &tokens[i] {
        Token::Goto(n) => Terminator::Goto(*n),
        Token::Halt => Terminator::Halt,
        Token::If(n) => {
            return Err(SyntaxErrorKind::ConditionNotAtStart(*n));
        },
        Token::Operand(n) => {
            return Err(SyntaxErrorKind::MisplacedOperand(*n));
        },
        Token::Illegal(w) => {
            return Err(SyntaxErrorKind::NotAnInstruction(w.clone()));
        },
        _ => {
            return Err(SyntaxErrorKind::MissingTerminator);
        },
    };
    if i + 1 < tokens.len() {
        assert(ts[i + 1] == tokens@[i + 1]@);
        match &tokens[i + 1] {
            Token::EndOfInput => {},
            _ => {
                return Err(SyntaxErrorKind::TerminatorNotAtEnd);
            },
        }
    } else if let Some(kw) = stop {
        return Err(SyntaxErrorKind::MissingOperand(kw));
    }
    Ok(Command { condition, body, terminator })
}

} // verus!
