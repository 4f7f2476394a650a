//! The execution engine: a tape of integers and a head that is at once the
//! tape position and the index of the next command.
use vstd::prelude::*;
use crate::command::{Command, Instruction, Terminator};

verus! {

/// What happens when a command's guard does not hold.
#[derive(Clone, Copy, Debug, PartialEq, Eq, Structural)]
pub enum GuardPolicy {
    /// The command is skipped and the run goes on at the next line (the default).
    NextLine,
    /// The run stops.
    Stop,
}

/// How a run ended without error.
#[derive(Clone, Copy, Debug, PartialEq, Eq, Structural)]
pub enum Outcome {
    /// A `halt` ran.
    Halted,
    /// The head reached the end of the program.
    FellOffEnd,
    /// A guard did not hold under [`GuardPolicy::Stop`].
    GuardFailed,
    /// The run used up its step budget before it ended.
    StepLimit,
}

/// Why a run trapped. Lines are counted from 1.
#[derive(Clone, Copy, Debug, PartialEq, Eq, Structural)]
pub enum RuntimeError {
    /// The guard of `line` reads a cell beyond the end of the tape.
    GuardOutOfTape { line: usize },
    /// `instruction` of `line` writes at `position`, which is off the tape.
    TapeOutOfBounds { line: usize, instruction: Instruction, position: i128 },
    /// The `goto` of `line` names `target`, which is not a line of the program.
    JumpOutOfRange { line: usize, target: i32 },
}

/// Where a step leaves the run.
pub enum Next {
    /// The run goes on with the head at this index.
    Continue(int),
    /// The run is over.
    Stop(Outcome),
}

/// One body instruction of line `line` run with the head at `head`: the new
/// tape and head.
pub open spec fn apply_instruction(tape: Seq<i32>, head: int, ins: Instruction, line: int) -> Result<
    (Seq<i32>, int),
    RuntimeError,
> {
    match ins {
        Instruction::Mover(n) => Ok((tape, head - n)),
        Instruction::Movel(n) => Ok((tape, head + n)),
        _ => {
            let v = match ins {
                Instruction::Write(n) => n,
                _ => 0,
            };
            if 0 <= head < tape.len() {
                Ok((tape.update(head, v), head))
            } else {
                Err(
                    RuntimeError::TapeOutOfBounds {
                        line: line as usize,
                        instruction: ins,
                        position: head as i128,
                    },
                )
            }
        },
    }
}

/// The instructions `body` of line `line` run in order from head `head`.
pub open spec fn apply_body(tape: Seq<i32>, head: int, body: Seq<Instruction>, line: int) -> Result<
    (Seq<i32>, int),
    RuntimeError,
>
    decreases body.len(),
{
    if body.len() == 0 {
        Ok((tape, head))
    } else {
        match apply_body(tape, head, body.drop_last(), line) {
            Ok((t, h)) => apply_instruction(t, h, body.last(), line),
            Err(e) => Err(e),
        }
    }
}

/// One step of `prog` from the head index `pc`: the new tape and where the
/// run goes.
pub open spec fn step(prog: Seq<Command>, policy: GuardPolicy, tape: Seq<i32>, pc: int) -> Result<
    (Seq<i32>, Next),
    RuntimeError,
> {
    if pc < 0 || pc >= prog.len() {
        Ok((tape, Next::Stop(Outcome::FellOffEnd)))
    } else {
        let c = prog[pc];
        let line = pc + 1;
        if c.condition is Some && pc >= tape.len() {
            Err(RuntimeError::GuardOutOfTape { line: line as usize })
        } else if c.condition is Some && tape[pc] != c.condition->0 {
            match policy {
                GuardPolicy::NextLine => Ok((tape, Next::Continue(pc + 1))),
                GuardPolicy::Stop => Ok((tape, Next::Stop(Outcome::GuardFailed))),
            }
        } else {
            match apply_body(tape, pc, c.body@, line) {
                Err(e) => Err(e),
                Ok((t, _)) => match c.terminator {
                    Terminator::Halt => Ok((t, Next::Stop(Outcome::Halted))),
                    Terminator::Goto(v) => if 1 <= v <= prog.len() {
                        Ok((t, Next::Continue(v - 1)))
                    } else {
                        Err(RuntimeError::JumpOutOfRange { line: line as usize, target: v })
                    },
                },
            }
        }
    }
}

/// At most `fuel` steps of `prog` from head index `pc`: the final tape and how
/// the run ended.
pub open spec fn run(prog: Seq<Command>, policy: GuardPolicy, tape: Seq<i32>, pc: int, fuel: nat) -> Result<
    (Seq<i32>, Outcome),
    RuntimeError,
>
    decreases fuel,
{
    if fuel == 0 {
        Ok((tape, Outcome::StepLimit))
    } else {
        match step(prog, policy, tape, pc) {
            Err(e) => Err(e),
            Ok((t, Next::Stop(o))) => Ok((t, o)),
            Ok((t, Next::Continue(next))) => run(prog, policy, t, next, (fuel - 1) as nat),
        }
    }
}

/// The state a run reaches from tape `tape` and head index `pc` after `n`
/// steps that each went on to a next line, or `None` if the run ended or
/// trapped before.
pub open spec fn reaches(prog: Seq<Command>, policy: GuardPolicy, tape: Seq<i32>, pc: int, n: nat) -> Option<
    (Seq<i32>, int),
>
    decreases n,
{
    if n == 0 {
        Some((tape, pc))
    } else {
        match step(prog, policy, tape, pc) {
            Ok((t, Next::Continue(next))) => reaches(prog, policy, t, next, (n - 1) as nat),
            _ => None,
        }
    }
}

/// An error in the first `k` instructions of a body is the error of the whole body.
proof fn lemma_body_error_persists(tape: Seq<i32>, head: int, body: Seq<Instruction>, k: int, line: int)
    requires
        0 <= k <= body.len(),
        apply_body(tape, head, body.subrange(0, k), line) is Err,
    ensures
        apply_body(tape, head, body, line) == apply_body(tape, head, body.subrange(0, k), line),
    decreases body.len(),
{
    if k == body.len() {
        assert(body.subrange(0, k) =~= body);
    } else {
        assert(body.drop_last().subrange(0, k) =~= body.subrange(0, k));
        lemma_body_error_persists(tape, head, body.drop_last(), k, line);
    }
}

/// A bound on the head's distance from zero while a body runs, far inside `i128`.
pub const HEAD_LIMIT: i128 = 0x1_0000_0000_0000_0000_0000_0000;

/// A tape, the head index, and the policy for guards that do not hold.
pub struct Machine {
    pub tape: Vec<i32>,
    pub index: usize,
    pub policy: GuardPolicy,
}

impl Machine {
    /// A machine over `tape` with the head at 0, which goes on at the next line
    /// when a guard does not hold.
    pub fn new(tape: Vec<i32>) -> (r: Machine)
        ensures
            r.tape@ == tape@,
            r.index == 0,
            r.policy == GuardPolicy::NextLine,
    {
        Machine { tape, index: 0, policy: GuardPolicy::NextLine }
    }

    /// A machine over `tape` with the head at 0 and the given guard policy.
    pub fn with_policy(tape: Vec<i32>, policy: GuardPolicy) -> (r: Machine)
        ensures
            r.tape@ == tape@,
            r.index == 0,
            r.policy == policy,
    {
        Machine { tape, index: 0, policy }
    }

    /// Runs `instruction` of line `line` with the head at `head`, and returns
    /// the new head.
    pub fn execute_instruction(&mut self, head: i128, instruction: Instruction, line: usize) -> (r:
        Result<i128, RuntimeError>)
        requires
            -HEAD_LIMIT <= head <= HEAD_LIMIT,
        ensures
            final(self).index == old(self).index,
            final(self).policy == old(self).policy,
            final(self).tape@.len() == old(self).tape@.len(),
            r is Err ==> final(self).tape@ == old(self).tape@,
            match r {
                Ok(h) => apply_instruction(old(self).tape@, head as int, instruction, line as int)
                    == Ok::<(Seq<i32>, int), RuntimeError>((final(self).tape@, h as int)),
                Err(e) => apply_instruction(old(self).tape@, head as int, instruction, line as int)
                    == Err::<(Seq<i32>, int), RuntimeError>(e),
            },
    {
        match instruction {
            Instruction::Mover(n) => Ok(head - n as i128),
            Instruction::Movel(n) => Ok(head + n as i128),
            Instruction::Write(_) | Instruction::Erase => {
                let v: i32 = match instruction {
                    Instruction::Write(n) => n,
                    _ => 0,
                };
                if 0 <= head && head < self.tape.len() as i128 {
                    self.tape.set(head as usize, v);
                    Ok(head)
                } else {
                    Err(RuntimeError::TapeOutOfBounds { line, instruction, position: head })
                }
            },
        }
    }

    /// Runs the command at the head index: one step of `program`. Returns the
    /// outcome if the run is over, `None` if it goes on from the new head index.
    #[verifier::loop_isolation(false)]
    pub fn execute_command(&mut self, program: &Vec<Command>) -> (r: Result<Option<Outcome>, RuntimeError>)
        ensures
            final(self).policy == old(self).policy,
            final(self).tape@.len() == old(self).tape@.len(),
            match r {
                Ok(None) => step(program@, old(self).policy, old(self).tape@, old(self).index as int)
                    == Ok::<(Seq<i32>, Next), RuntimeError>(
                    (final(self).tape@, Next::Continue(final(self).index as int)),
                ),
                Ok(Some(o)) => step(program@, old(self).policy, old(self).tape@, old(self).index as int)
                    == Ok::<(Seq<i32>, Next), RuntimeError>((final(self).tape@, Next::Stop(o))),
                Err(e) => step(program@, old(self).policy, old(self).tape@, old(self).index as int)
                    == Err::<(Seq<i32>, Next), RuntimeError>(e),
            },
    {
        let pc: usize = self.index;
        if pc >= program.len() {
            return Ok(Some(Outcome::FellOffEnd));
        }
        let command = &program[pc];
        let line: usize = pc + 1;
        if let Some(v) = command.condition {
            if pc >= self.tape.len() {
                return Err(RuntimeError::GuardOutOfTape { line });
            }
            if self.tape[pc] != v {
                match self.policy {
                    GuardPolicy::NextLine => {
                        self.index = pc + 1;
                        return Ok(None);
                    },
                    GuardPolicy::Stop => {
                        return Ok(Some(Outcome::GuardFailed));
                    },
                }
            }
        }
        let ghost tape0 = self.tape@;
        let body = &command.body;
        let mut head: i128 = pc as i128;
        let n: usize = body.len();
        let mut j: usize = 0;
        while j < n
            invariant
                n == body@.len(),
                j <= n,
                pc < program@.len(),
                line == pc + 1,
                self.index == pc,
                self.policy == old(self).policy,
                self.tape@.len() == old(self).tape@.len(),
                pc as int - j * 2147483648 <= head <= pc as int + j * 2147483648,
                apply_body(tape0, pc as int, body@.subrange(0, j as int), line as int)
                    == Ok::<(Seq<i32>, int), RuntimeError>((self.tape@, head as int)),
            decreases body@.len() - j,
        {
            let ghost before = body@.subrange(0, j as int);
            assert(body@.subrange(0, j + 1).drop_last() =~= before);
            match self.execute_instruction(head, body[j], line) {
                Ok(h) => {
                    head = h;
                },
                Err(e) => {
                    proof {
                        lemma_body_error_persists(tape0, pc as int, body@, j + 1, line as int);
                    }
                    return Err(e);
                },
            }
            j = j + 1;
        }
        assert(body@.subrange(0, body@.len() as int) =~= body@);
        match command.terminator {
            Terminator::Halt => Ok(Some(Outcome::Halted)),
            Terminator::Goto(v) => {
                if 1 <= v && v as usize <= program.len() {
                    self.index = (v - 1) as usize;
                    Ok(None)
                } else {
                    Err(RuntimeError::JumpOutOfRange { line, target: v })
                }
            },
        }
    }

    /// Runs `program` from the head index for at most `max_steps` steps, where
    /// a step is one command run or skipped, or the discovery that the head is
    /// past the last line.
    pub fn execute_algorithm(&mut self, program: &Vec<Command>, max_steps: u64) -> (r: Result<
        Outcome,
        RuntimeError,
    >)
        ensures
            final(self).policy == old(self).policy,
            final(self).tape@.len() == old(self).tape@.len(),
            match r {
                Ok(o) => run(program@, old(self).policy, old(self).tape@, old(self).index as int, max_steps as nat)
                    == Ok::<(Seq<i32>, Outcome), RuntimeError>((final(self).tape@, o)),
                Err(e) => run(program@, old(self).policy, old(self).tape@, old(self).index as int, max_steps as nat)
                    == Err::<(Seq<i32>, Outcome), RuntimeError>(e),
            },
    {
        let mut left: u64 = max_steps;
        while left > 0
            invariant
                self.policy == old(self).policy,
                self.tape@.len() == old(self).tape@.len(),
                run(program@, old(self).policy, old(self).tape@, old(self).index as int, max_steps as nat)
                    == run(program@, self.policy, self.tape@, self.index as int, left as nat),
            decreases left,
        {
            match self.execute_command(program) {
                Ok(None) => {},
                Ok(Some(o)) => {
                    return Ok(o);
                },
                Err(e) => {
                    return Err(e);
                },
            }
            left = left - 1;
        }
        Ok(Outcome::StepLimit)
    }
}

} // verus!
