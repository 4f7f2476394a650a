use sanae::command::{Instruction, SyntaxErrorKind, Terminator};
use sanae::machine::{GuardPolicy, Machine, Outcome, RuntimeError};
use sanae::parser::Parser;
use sanae::token::{Keyword, Token};

const STEPS: u64 = 10_000;

fn run(src: &str, tape: Vec<i32>) -> (Result<Outcome, RuntimeError>, Vec<i32>) {
    let program = Parser::new().parse_algorithm(src).expect("program parses");
    let mut machine = Machine::new(tape);
    let r = machine.execute_algorithm(&program, STEPS);
    (r, machine.tape)
}

fn line_error(line: &str) -> SyntaxErrorKind {
    match Parser::new().parse_command(line) {
        Ok(c) => panic!("unexpected command {:?}", c),
        Err(e) => e,
    }
}

#[test]
fn one_command_per_line_in_order() {
    let program = Parser::new()
        .parse_algorithm("write 1 goto 2\nif 4 erase halt\nmovel 2 mover 3 goto 1\n")
        .unwrap();
    assert_eq!(program.len(), 3);
    assert_eq!(program[0].condition, None);
    assert_eq!(program[0].body, vec![Instruction::Write(1)]);
    assert_eq!(program[0].terminator, Terminator::Goto(2));
    assert_eq!(program[1].condition, Some(4));
    assert_eq!(program[1].body, vec![Instruction::Erase]);
    assert_eq!(program[1].terminator, Terminator::Halt);
    assert_eq!(program[2].body, vec![Instruction::Movel(2), Instruction::Mover(3)]);
    assert_eq!(program[2].terminator, Terminator::Goto(1));
}

#[test]
fn empty_source_has_no_commands() {
    assert_eq!(Parser::new().parse_algorithm("").unwrap().len(), 0);
}

#[test]
fn crlf_and_tabs_separate_words() {
    let program = Parser::new().parse_algorithm("write\t3  halt\r\n\u{3000}erase\u{3000}halt").unwrap();
    assert_eq!(program.len(), 2);
    assert_eq!(program[0].body, vec![Instruction::Write(3)]);
    assert_eq!(program[1].body, vec![Instruction::Erase]);
}

#[test]
fn blank_line_fails_with_its_number() {
    let e = Parser::new().parse_algorithm("halt\n\nhalt").unwrap_err();
    assert_eq!(e.line, 2);
    assert!(matches!(e.kind, SyntaxErrorKind::MissingTerminator));
}

#[test]
fn first_bad_line_is_reported() {
    let e = Parser::new().parse_algorithm("halt\nwrite 5\n5 halt").unwrap_err();
    assert_eq!(e.line, 2);
    assert!(matches!(e.kind, SyntaxErrorKind::MissingTerminator));
}

#[test]
fn round_trip_of_structure() {
    let parser = Parser::new();
    let line = "if 3 write 4 mover 1 movel -2 erase goto 1";
    let tokens = parser.tokenize(line).unwrap();
    let command = parser.parse_command(line).unwrap();
    let written = command.to_tokens();
    assert_eq!(format!("{:?}", written), format!("{:?}", tokens));
    assert_eq!(written.len(), 6);
    assert!(matches!(written[0], Token::If(3)));
    assert!(matches!(written[5], Token::Goto(1)));
}

#[test]
fn round_trip_without_guard() {
    let parser = Parser::new();
    let line = "erase erase halt";
    let written = parser.parse_command(line).unwrap().to_tokens();
    assert_eq!(format!("{:?}", written), format!("{:?}", parser.tokenize(line).unwrap()));
}

#[test]
fn missing_terminator_fails() {
    assert!(matches!(line_error("write 5"), SyntaxErrorKind::MissingTerminator));
    assert!(matches!(line_error("if 2 erase"), SyntaxErrorKind::MissingTerminator));
    assert!(matches!(line_error(""), SyntaxErrorKind::MissingTerminator));
}

#[test]
fn bare_operand_is_misplaced() {
    assert!(matches!(line_error("5 halt"), SyntaxErrorKind::MisplacedOperand(5)));
    assert!(matches!(line_error("write 1 -7 halt"), SyntaxErrorKind::MisplacedOperand(-7)));
}

#[test]
fn keyword_without_operand_fails() {
    assert!(matches!(line_error("write halt"), SyntaxErrorKind::MissingOperand(Keyword::Write)));
    assert!(matches!(line_error("erase goto"), SyntaxErrorKind::MissingOperand(Keyword::Goto)));
    assert!(matches!(line_error("if x halt"), SyntaxErrorKind::MissingOperand(Keyword::If)));
}

#[test]
fn unknown_word_is_not_an_instruction() {
    match line_error("write 1 jump halt") {
        SyntaxErrorKind::NotAnInstruction(w) => assert_eq!(w, "jump"),
        other => panic!("unexpected {:?}", other),
    }
}

#[test]
fn operand_out_of_i32_is_not_an_instruction() {
    match line_error("2147483648 halt") {
        SyntaxErrorKind::NotAnInstruction(w) => assert_eq!(w, "2147483648"),
        other => panic!("unexpected {:?}", other),
    }
}

#[test]
fn operand_signs_and_limits() {
    let parser = Parser::new();
    let c = parser.parse_command("write +5 write -2147483648 write 2147483647 write 007 halt").unwrap();
    assert_eq!(
        c.body,
        vec![
            Instruction::Write(5),
            Instruction::Write(i32::MIN),
            Instruction::Write(i32::MAX),
            Instruction::Write(7)
        ]
    );
    assert!(matches!(line_error("write - halt"), SyntaxErrorKind::MissingOperand(Keyword::Write)));
    assert!(matches!(line_error("write 1a halt"), SyntaxErrorKind::MissingOperand(Keyword::Write)));
}

#[test]
fn condition_only_at_start() {
    assert!(matches!(line_error("erase if 1 halt"), SyntaxErrorKind::ConditionNotAtStart(1)));
}

#[test]
fn terminator_only_at_end() {
    assert!(matches!(line_error("halt write 5"), SyntaxErrorKind::TerminatorNotAtEnd));
    assert!(matches!(line_error("goto 1 halt"), SyntaxErrorKind::TerminatorNotAtEnd));
}

#[test]
fn lone_terminator_has_empty_body() {
    let c = Parser::new().parse_command("halt").unwrap();
    assert_eq!(c.condition, None);
    assert!(c.body.is_empty());
    assert_eq!(c.terminator, Terminator::Halt);
}

#[test]
fn tokenize_joins_keyword_and_operand() {
    let tokens = Parser::new().tokenize("if -1 write 5 erase goto 2").unwrap();
    assert_eq!(tokens.len(), 4);
    assert!(matches!(tokens[0], Token::If(-1)));
    assert!(matches!(tokens[1], Token::Write(5)));
    assert!(matches!(tokens[2], Token::Erase));
    assert!(matches!(tokens[3], Token::Goto(2)));
}

#[test]
fn tokenize_rejects_bare_operand() {
    let r = Parser::new().tokenize("write 1 2 halt");
    assert!(matches!(r, Err(SyntaxErrorKind::MisplacedOperand(2))));
    let r = Parser::new().tokenize("5 halt");
    assert!(matches!(r, Err(SyntaxErrorKind::MisplacedOperand(5))));
}

#[test]
fn tokenize_rejects_unknown_word() {
    match Parser::new().tokenize("bogus 3 halt") {
        Err(SyntaxErrorKind::NotAnInstruction(w)) => assert_eq!(w, "bogus"),
        other => panic!("unexpected {:?}", other),
    }
}

#[test]
fn tokenize_rejects_keyword_without_operand() {
    let r = Parser::new().tokenize("erase movel");
    assert!(matches!(r, Err(SyntaxErrorKind::MissingOperand(Keyword::Movel))));
}

#[test]
fn tokenize_reports_first_problem() {
    let r = Parser::new().tokenize("7 bogus write");
    assert!(matches!(r, Err(SyntaxErrorKind::MisplacedOperand(7))));
    match Parser::new().tokenize("bogus 7 write") {
        Err(SyntaxErrorKind::NotAnInstruction(w)) => assert_eq!(w, "bogus"),
        other => panic!("unexpected {:?}", other),
    }
}

#[test]
fn parse_reports_first_problem_in_reading_order() {
    assert!(matches!(line_error("5 write"), SyntaxErrorKind::MisplacedOperand(5)));
    assert!(matches!(line_error("write 1 if 2"), SyntaxErrorKind::ConditionNotAtStart(2)));
    assert!(matches!(line_error("write 1 if 2 halt halt"), SyntaxErrorKind::ConditionNotAtStart(2)));
    assert!(matches!(line_error("halt write"), SyntaxErrorKind::MissingOperand(Keyword::Write)));
    assert!(matches!(line_error("if 1 write"), SyntaxErrorKind::MissingOperand(Keyword::Write)));
    assert!(matches!(line_error("halt 5"), SyntaxErrorKind::TerminatorNotAtEnd));
}

#[test]
fn failed_write_leaves_tape_unchanged() {
    let mut machine = Machine::new(vec![0, 0]);
    let r = machine.execute_instruction(2, Instruction::Write(1), 1);
    assert_eq!(
        r,
        Err(RuntimeError::TapeOutOfBounds { line: 1, instruction: Instruction::Write(1), position: 2 })
    );
    assert_eq!(machine.tape, vec![0, 0]);
}

#[test]
fn empty_program_falls_off_at_once() {
    let mut machine = Machine::new(vec![4, 5]);
    assert_eq!(machine.execute_algorithm(&Vec::new(), 1), Ok(Outcome::FellOffEnd));
    assert_eq!(machine.tape, vec![4, 5]);
}

#[test]
fn guard_that_holds_runs_the_body() {
    let (r, tape) = run("if 1 write 9 halt", vec![1, 2, 3]);
    assert_eq!(r, Ok(Outcome::Halted));
    assert_eq!(tape, vec![9, 2, 3]);
}

#[test]
fn guard_that_fails_skips_to_next_line() {
    let (r, tape) = run("if 1 write 9 halt", vec![0, 2, 3]);
    assert_eq!(r, Ok(Outcome::FellOffEnd));
    assert_eq!(tape, vec![0, 2, 3]);
}

#[test]
fn guard_that_fails_under_stop_policy() {
    let program = Parser::new().parse_algorithm("if 1 write 9 halt\nwrite 4 halt").unwrap();
    let mut machine = Machine::with_policy(vec![0, 2, 3], GuardPolicy::Stop);
    assert_eq!(machine.execute_algorithm(&program, STEPS), Ok(Outcome::GuardFailed));
    assert_eq!(machine.tape, vec![0, 2, 3]);
}

#[test]
fn halt_leaves_tape_unchanged() {
    let (r, tape) = run("halt", vec![7]);
    assert_eq!(r, Ok(Outcome::Halted));
    assert_eq!(tape, vec![7]);
}

#[test]
fn goto_out_of_range_traps() {
    let (r, _) = run("goto 99\nhalt", vec![0, 0]);
    assert_eq!(r, Err(RuntimeError::JumpOutOfRange { line: 1, target: 99 }));
    let (r, _) = run("goto 0\nhalt", vec![0, 0]);
    assert_eq!(r, Err(RuntimeError::JumpOutOfRange { line: 1, target: 0 }));
}

#[test]
fn falling_off_the_end_is_normal() {
    let (r, tape) = run("if 5 halt\nif 6 halt", vec![0, 0]);
    assert_eq!(r, Ok(Outcome::FellOffEnd));
    assert_eq!(tape, vec![0, 0]);
}

#[test]
fn goto_counts_lines_from_one() {
    let (r, tape) = run("goto 3\nwrite 5 halt\nwrite 8 halt", vec![0, 0, 0]);
    assert_eq!(r, Ok(Outcome::Halted));
    assert_eq!(tape, vec![0, 0, 8]);
    let (r, tape) = run("goto 3\nwrite 5 halt\nwrite 8 goto 2", vec![0, 0, 0]);
    assert_eq!(r, Ok(Outcome::Halted));
    assert_eq!(tape, vec![0, 5, 8]);
}

#[test]
fn movel_increases_and_mover_decreases_the_head() {
    let (r, tape) = run("movel 2 write 7 mover 1 write 8 halt", vec![0, 0, 0]);
    assert_eq!(r, Ok(Outcome::Halted));
    assert_eq!(tape, vec![0, 8, 7]);
}

#[test]
fn erase_sets_zero() {
    let (r, tape) = run("erase halt", vec![4, 4]);
    assert_eq!(r, Ok(Outcome::Halted));
    assert_eq!(tape, vec![0, 4]);
}

#[test]
fn write_off_the_tape_traps() {
    let (r, _) = run("movel 5 write 1 halt", vec![0]);
    assert_eq!(
        r,
        Err(RuntimeError::TapeOutOfBounds { line: 1, instruction: Instruction::Write(1), position: 5 })
    );
    let (r, _) = run("mover 1 erase halt", vec![0]);
    assert_eq!(
        r,
        Err(RuntimeError::TapeOutOfBounds { line: 1, instruction: Instruction::Erase, position: -1 })
    );
}

#[test]
fn moving_off_and_back_is_allowed() {
    let (r, tape) = run("movel 9 mover 9 write 3 halt", vec![0]);
    assert_eq!(r, Ok(Outcome::Halted));
    assert_eq!(tape, vec![3]);
}

#[test]
fn guard_beyond_the_tape_traps() {
    let (r, _) = run("goto 3\nhalt\nif 0 halt", vec![1]);
    assert_eq!(r, Err(RuntimeError::GuardOutOfTape { line: 3 }));
}

#[test]
fn endless_loop_meets_step_limit() {
    let program = Parser::new().parse_algorithm("goto 1").unwrap();
    let mut machine = Machine::new(vec![0]);
    assert_eq!(machine.execute_algorithm(&program, 10), Ok(Outcome::StepLimit));
}

#[test]
fn single_step_reports_next_index() {
    let program = Parser::new().parse_algorithm("write 2 goto 2\nhalt").unwrap();
    let mut machine = Machine::new(vec![0, 0]);
    assert_eq!(machine.execute_command(&program), Ok(None));
    assert_eq!(machine.index, 1);
    assert_eq!(machine.tape, vec![2, 0]);
    assert_eq!(machine.execute_command(&program), Ok(Some(Outcome::Halted)));
}

#[test]
fn counting_program_runs() {
    let src = "if 0 write 1 goto 3\nif 1 write 2 goto 3\nhalt";
    let (r, tape) = run(src, vec![0, 1, 5]);
    assert_eq!(r, Ok(Outcome::Halted));
    assert_eq!(tape, vec![1, 1, 5]);
}
