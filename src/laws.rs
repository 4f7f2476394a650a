//! Properties that hold across the parser and the machine.
use vstd::prelude::*;
use crate::command::{
    CommandView, SyntaxErrorKindView, body_end, body_instruction, body_start, command_tokens,
    condition_of, instruction_token, is_body_token, parse_tokens, terminator_token,
};
use crate::machine::{GuardPolicy, Next, Outcome, RuntimeError, apply_body, reaches, run, step};
use crate::command::Command;
use crate::number::operand_of;
use crate::parser::{first_stray, line_tokens, parse_line};
use crate::text::words_of;
use crate::token::{Keyword, TokenView, keyword_of, read_from, read_words, token_at};

verus! {

/// Whether `ts` is laid out as one command: an optional `if`, then body
/// instructions only, then a single `goto` or `halt` as the last token.
pub open spec fn is_command_layout(ts: Seq<TokenView>) -> bool {
    &&& ts.len() > body_start(ts)
    &&& (ts.last() is Goto || ts.last() is Halt)
    &&& forall|i: int| body_start(ts) <= i < ts.len() - 1 ==> is_body_token(#[trigger] ts[i])
}

/// Whether no token of `ts` is `EndOfInput`, as is so of the tokens of any line.
pub open spec fn has_no_end_marker(ts: Seq<TokenView>) -> bool {
    forall|i: int| 0 <= i < ts.len() ==> !(#[trigger] ts[i] is EndOfInput)
}

/// Every token from `i` up to `m` is a body instruction and `ts[m]` is not (or
/// `m` is the end): then the body that starts at `i` ends at `m`.
proof fn lemma_body_end_at(ts: Seq<TokenView>, i: int, m: int)
    requires
        0 <= i <= m <= ts.len(),
        forall|j: int| i <= j < m ==> is_body_token(#[trigger] ts[j]),
        m == ts.len() || !is_body_token(ts[m]),
    ensures
        body_end(ts, i) == m,
    decreases m - i,
{
    if i < m {
        lemma_body_end_at(ts, i + 1, m);
    }
}

/// The body that starts at `i` ends at the first token after `i` that is not
/// a body instruction, and all tokens before that end are body instructions.
proof fn lemma_body_end_bounds(ts: Seq<TokenView>, i: int)
    requires
        0 <= i <= ts.len(),
    ensures
        i <= body_end(ts, i) <= ts.len(),
        forall|j: int| i <= j < body_end(ts, i) ==> is_body_token(#[trigger] ts[j]),
        body_end(ts, i) == ts.len() || !is_body_token(ts[body_end(ts, i)]),
    decreases ts.len() - i,
{
    if i < ts.len() && is_body_token(ts[i]) {
        lemma_body_end_bounds(ts, i + 1);
    }
}

/// Writing a command out as tokens and parsing those tokens gives the command back.
pub proof fn lemma_write_then_parse(c: CommandView)
    ensures
        parse_tokens(command_tokens(c), None) == Ok::<CommandView, SyntaxErrorKindView>(c),
{
    let ts = command_tokens(c);
    let g: int = if c.condition is Some {
        1
    } else {
        0
    };
    let m = g + c.body.len();
    assert(ts.len() == m + 1);
    assert(forall|j: int| 0 <= j < c.body.len() ==> #[trigger] ts[g + j] == instruction_token(c.body[j]));
    assert(body_start(ts) == g);
    assert forall|j: int| g <= j < m implies is_body_token(#[trigger] ts[j]) by {
        assert(ts[g + (j - g)] == instruction_token(c.body[j - g]));
    }
    assert(ts[m] == terminator_token(c.terminator));
    lemma_body_end_at(ts, g, m);
    let body = ts.subrange(g, m).map_values(|t: TokenView| body_instruction(t));
    assert forall|j: int| 0 <= j < c.body.len() implies body[j] == c.body[j] by {
        assert(ts[g + j] == instruction_token(c.body[j]));
    }
    assert(body =~= c.body);
    match c.condition {
        Some(n) => assert(condition_of(ts) == Some(n)),
        None => {
            if ts[0] is If {
                if c.body.len() > 0 {
                    assert(ts[0] == instruction_token(c.body[0]));
                }
            }
            assert(condition_of(ts) is None);
        },
    }
}

/// Parsing a line laid out as one command and writing the command out again
/// gives back the same tokens, in the same order.
pub proof fn lemma_parse_then_write(ts: Seq<TokenView>)
    requires
        is_command_layout(ts),
    ensures
        parse_tokens(ts, None) is Ok,
        command_tokens(parse_tokens(ts, None)->Ok_0) == ts,
{
    let g = body_start(ts);
    let m = ts.len() - 1;
    lemma_body_end_at(ts, g, m);
    let c = parse_tokens(ts, None)->Ok_0;
    let out = command_tokens(c);
    assert(out.len() == ts.len());
    assert forall|j: int| 0 <= j < ts.len() implies out[j] == ts[j] by {
        if j < g {
            assert(ts[0] is If);
        } else if j < m {
            assert(is_body_token(ts[j]));
        }
    }
    assert(out =~= ts);
}

/// A line whose tokens are laid out as one command parses, and writing that
/// command out gives back the line's tokens.
pub proof fn lemma_line_round_trip(line: Seq<char>)
    requires
        line_tokens(line) is Ok,
        is_command_layout(line_tokens(line)->Ok_0),
    ensures
        parse_line(line) is Ok,
        command_tokens(parse_line(line)->Ok_0) == line_tokens(line)->Ok_0,
{
    let (ts, stop) = read_words(words_of(line));
    assert(stop is None && line_tokens(line)->Ok_0 == ts);
    lemma_parse_then_write(ts);
}

/// A line whose tokens do not end with `goto` or `halt` makes no command,
/// whatever comes before and wherever reading stopped.
pub proof fn lemma_missing_terminator_fails(ts: Seq<TokenView>, stop: Option<Keyword>)
    requires
        has_no_end_marker(ts),
        ts.len() == 0 || !(ts.last() is Goto || ts.last() is Halt),
    ensures
        parse_tokens(ts, stop) is Err,
{
    lemma_body_end_bounds(ts, body_start(ts));
}

/// A line in which an integer stands as a token of its own makes no command.
pub proof fn lemma_bare_operand_fails(ts: Seq<TokenView>, stop: Option<Keyword>, i: int)
    requires
        has_no_end_marker(ts),
        0 <= i < ts.len(),
        ts[i] is Operand,
    ensures
        parse_tokens(ts, stop) is Err,
{
    let g = body_start(ts);
    lemma_body_end_bounds(ts, g);
    let k = body_end(ts, g);
    if i < g {
        assert(ts[0] is If);
    } else if i < k {
        assert(is_body_token(ts[i]));
    }
}

/// The tokens read from words never hold `EndOfInput`.
proof fn lemma_read_has_no_end_marker(ws: Seq<Seq<char>>, i: int)
    ensures
        has_no_end_marker(read_from(ws, i).0),
    decreases ws.len() - i,
{
    if 0 <= i < ws.len() {
        match token_at(ws, i) {
            Ok((t, j)) => {
                lemma_read_has_no_end_marker(ws, j);
                let rest = read_from(ws, j).0;
                let all = seq![t] + rest;
                assert forall|k: int| 0 <= k < all.len() implies !(#[trigger] all[k] is EndOfInput) by {
                    if k > 0 {
                        assert(all[k] == rest[k - 1]);
                    }
                }
            },
            Err(_) => {},
        }
    }
}

/// Reading that stopped at a keyword without its operand makes no command.
proof fn lemma_stopped_reading_fails(ts: Seq<TokenView>, k: Keyword)
    requires
        has_no_end_marker(ts),
    ensures
        parse_tokens(ts, Some(k)) is Err,
{
    lemma_body_end_bounds(ts, body_start(ts));
}

/// A line whose tokens do not end with `goto` or `halt` makes no command.
pub proof fn lemma_line_without_terminator_fails(line: Seq<char>)
    requires
        ({
            let ts = read_words(words_of(line)).0;
            ts.len() == 0 || !(ts.last() is Goto || ts.last() is Halt)
        }),
    ensures
        parse_line(line) is Err,
{
    let (ts, stop) = read_words(words_of(line));
    lemma_read_has_no_end_marker(words_of(line), 0);
    lemma_missing_terminator_fails(ts, stop);
}

/// A line in which an integer stands as a token of its own makes no command,
/// and tokenizing it fails.
pub proof fn lemma_line_with_bare_operand_fails(line: Seq<char>, i: int)
    requires
        0 <= i < read_words(words_of(line)).0.len(),
        read_words(words_of(line)).0[i] is Operand,
    ensures
        parse_line(line) is Err,
        line_tokens(line) is Err,
{
    let (ts, stop) = read_words(words_of(line));
    lemma_read_has_no_end_marker(words_of(line), 0);
    lemma_bare_operand_fails(ts, stop, i);
    lemma_first_stray_bound(ts, 0, i);
}

/// A stray token at `i` means the first stray token from `j` on is at or before `i`.
proof fn lemma_first_stray_bound(ts: Seq<TokenView>, j: int, i: int)
    requires
        0 <= j <= i < ts.len(),
        ts[i] is Operand || ts[i] is Illegal,
    ensures
        first_stray(ts, j) <= i,
    decreases i - j,
{
    if j < i && !(ts[j] is Operand || ts[j] is Illegal) {
        lemma_first_stray_bound(ts, j + 1, i);
    }
}

/// A keyword at word `i` that no integer follows: tokenizing from any word
/// `j` up to `i` at which a token starts fails.
proof fn lemma_missing_operand_from(ws: Seq<Seq<char>>, i: int, j: int)
    requires
        0 <= j <= i < ws.len(),
        keyword_of(ws[i]) is Some,
        operand_of(ws[i]) is None,
        i + 1 == ws.len() || operand_of(ws[i + 1]) is None,
    ensures
        read_from(ws, j).1 is Some,
    decreases i - j,
{
    if j < i {
        match token_at(ws, j) {
            Ok((t, next)) => {
                assert(next <= i);
                lemma_missing_operand_from(ws, i, next);
            },
            Err(_) => {},
        }
    }
}

/// Reading words in which an argument-taking keyword is not followed by an
/// integer stops at a keyword without its operand.
pub proof fn lemma_missing_operand_fails(ws: Seq<Seq<char>>, i: int)
    requires
        0 <= i < ws.len(),
        keyword_of(ws[i]) is Some,
        i + 1 == ws.len() || operand_of(ws[i + 1]) is None,
    ensures
        read_words(ws).1 is Some,
{
    let w = ws[i];
    assert(w.len() > 0 && w[0] != '-' && w[0] != '+' && !('0' <= w[0] <= '9'));
    lemma_missing_operand_from(ws, i, 0);
}

/// A line in which an argument-taking keyword is not followed by an integer
/// makes no command, and tokenizing it fails.
pub proof fn lemma_line_missing_operand_fails(line: Seq<char>, i: int)
    requires
        0 <= i < words_of(line).len(),
        keyword_of(words_of(line)[i]) is Some,
        i + 1 == words_of(line).len() || operand_of(words_of(line)[i + 1]) is None,
    ensures
        parse_line(line) is Err,
        line_tokens(line) is Err,
{
    lemma_missing_operand_fails(words_of(line), i);
    lemma_read_has_no_end_marker(words_of(line), 0);
    lemma_stopped_reading_fails(read_words(words_of(line)).0, read_words(words_of(line)).1->0);
}

/// A guard that does not hold leaves the tape as it is and, under the default
/// policy, moves the run on to the next line.
pub proof fn lemma_failed_guard_skips(prog: Seq<Command>, tape: Seq<i32>, pc: int)
    requires
        0 <= pc < prog.len(),
        pc < tape.len(),
        prog[pc].condition is Some,
        tape[pc] != prog[pc].condition->0,
    ensures
        step(prog, GuardPolicy::NextLine, tape, pc) == Ok::<(Seq<i32>, Next), RuntimeError>(
            (tape, Next::Continue(pc + 1)),
        ),
{
}

/// A run that reaches a state after `n` steps goes on from that state as a
/// run of its own, with `n` steps fewer.
pub proof fn lemma_run_from_reached(
    prog: Seq<Command>,
    policy: GuardPolicy,
    tape: Seq<i32>,
    pc: int,
    n: nat,
    fuel: nat,
)
    requires
        reaches(prog, policy, tape, pc, n) is Some,
        fuel >= n,
    ensures
        ({
            let (t, p) = reaches(prog, policy, tape, pc, n)->0;
            run(prog, policy, tape, pc, fuel) == run(prog, policy, t, p, (fuel - n) as nat)
        }),
    decreases n,
{
    if n > 0 {
        match step(prog, policy, tape, pc) {
            Ok((t, Next::Continue(next))) => {
                lemma_run_from_reached(prog, policy, t, next, (n - 1) as nat, (fuel - 1) as nat);
            },
            _ => {},
        }
    }
}

/// Whenever a run comes to a line whose guard holds, whose body runs without
/// error and whose `goto` names a line that the program does not have, the run
/// traps with that target, if its step budget lasts until that line.
pub proof fn lemma_run_traps_on_bad_goto(
    prog: Seq<Command>,
    policy: GuardPolicy,
    tape: Seq<i32>,
    pc: int,
    n: nat,
    fuel: nat,
)
    requires
        reaches(prog, policy, tape, pc, n) is Some,
        fuel > n,
        ({
            let (t, p) = reaches(prog, policy, tape, pc, n)->0;
            &&& 0 <= p < prog.len()
            &&& prog[p].condition is None || (p < t.len() && t[p] == prog[p].condition->0)
            &&& apply_body(t, p, prog[p].body@, p + 1) is Ok
            &&& prog[p].terminator is Goto
            &&& (prog[p].terminator->Goto_0 < 1 || prog[p].terminator->Goto_0 > prog.len())
        }),
    ensures
        ({
            let (_, p) = reaches(prog, policy, tape, pc, n)->0;
            run(prog, policy, tape, pc, fuel) == Err::<(Seq<i32>, Outcome), RuntimeError>(
                RuntimeError::JumpOutOfRange {
                    line: (p + 1) as usize,
                    target: prog[p].terminator->Goto_0,
                },
            )
        }),
{
    lemma_run_from_reached(prog, policy, tape, pc, n, fuel);
    let (t, p) = reaches(prog, policy, tape, pc, n)->0;
    lemma_goto_out_of_range_traps(prog, policy, t, p, (fuel - n) as nat);
}

/// Whenever a run comes to the end of the program, by any path, it ends
/// normally with the tape as it is at that moment, if its step budget lasts
/// until then.
pub proof fn lemma_run_falls_off_end(
    prog: Seq<Command>,
    policy: GuardPolicy,
    tape: Seq<i32>,
    pc: int,
    n: nat,
    fuel: nat,
)
    requires
        reaches(prog, policy, tape, pc, n) is Some,
        ({
            let (_, p) = reaches(prog, policy, tape, pc, n)->0;
            p == prog.len()
        }),
        fuel > n,
    ensures
        ({
            let (t, _) = reaches(prog, policy, tape, pc, n)->0;
            run(prog, policy, tape, pc, fuel) == Ok::<(Seq<i32>, Outcome), RuntimeError>(
                (t, Outcome::FellOffEnd),
            )
        }),
{
    lemma_run_from_reached(prog, policy, tape, pc, n, fuel);
    let (t, _) = reaches(prog, policy, tape, pc, n)->0;
    lemma_fall_off_end(prog, policy, t, (fuel - n) as nat);
}

/// A `goto` to a line that the program does not have traps, once the guard
/// has held and the body has run.
pub proof fn lemma_goto_out_of_range_traps(
    prog: Seq<Command>,
    policy: GuardPolicy,
    tape: Seq<i32>,
    pc: int,
    fuel: nat,
)
    requires
        0 <= pc < prog.len(),
        fuel > 0,
        prog[pc].condition is None || (pc < tape.len() && tape[pc] == prog[pc].condition->0),
        apply_body(tape, pc, prog[pc].body@, pc + 1) is Ok,
        prog[pc].terminator is Goto,
        prog[pc].terminator->Goto_0 < 1 || prog[pc].terminator->Goto_0 > prog.len(),
    ensures
        run(prog, policy, tape, pc, fuel) == Err::<(Seq<i32>, Outcome), RuntimeError>(
            RuntimeError::JumpOutOfRange {
                line: (pc + 1) as usize,
                target: prog[pc].terminator->Goto_0,
            },
        ),
{
}

/// A run whose head has reached the end of the program ends normally, with
/// the tape as it is.
pub proof fn lemma_fall_off_end(
    prog: Seq<Command>,
    policy: GuardPolicy,
    tape: Seq<i32>,
    fuel: nat,
)
    requires
        fuel > 0,
    ensures
        run(prog, policy, tape, prog.len() as int, fuel) == Ok::<(Seq<i32>, Outcome), RuntimeError>(
            (tape, Outcome::FellOffEnd),
        ),
{
}

} // verus!
