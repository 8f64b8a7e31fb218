use bfi::machine::{eval, eval_nodes, EvalError, State, Streams};
use bfi::node::Node;
use bfi::parser::{parse, ParseError};
use bfi::token::{lex, Token, TokenKind};
use bfi::{execute, Error};

const LIMIT: u64 = 1_000_000;

fn parse_str(s: &str) -> Result<Vec<Node>, ParseError> {
    parse(lex(s))
}

fn run_with(src: &str, input: &[u8]) -> (Result<State, Error>, Streams) {
    let mut io = Streams::new(input.to_vec());
    let r = execute(src, &mut io, LIMIT);
    (r, io)
}

#[test]
fn lex_maps_each_character() {
    let toks = lex("-+><,.[]a \né");
    let kinds: Vec<TokenKind> = toks.iter().map(|t: &Token| t.kind).collect();
    assert_eq!(
        kinds,
        vec![
            TokenKind::DecrementByte,
            TokenKind::IncrementByte,
            TokenKind::MoveRight,
            TokenKind::MoveLeft,
            TokenKind::Input,
            TokenKind::Output,
            TokenKind::JumpRight,
            TokenKind::JumpLeft,
            TokenKind::Comment('a'),
            TokenKind::Comment(' '),
            TokenKind::Comment('\n'),
            TokenKind::Comment('é'),
        ]
    );
}

#[test]
fn lex_empty_source() {
    assert!(lex("").is_empty());
}

#[test]
fn coalesce_increments() {
    assert_eq!(parse_str("+++"), Ok(vec![Node::Delta(3)]));
}

#[test]
fn coalesce_mixed_deltas() {
    assert_eq!(parse_str("+-+-+"), Ok(vec![Node::Delta(1)]));
    assert_eq!(parse_str("---"), Ok(vec![Node::Delta(-3)]));
}

#[test]
fn coalesce_moves() {
    assert_eq!(parse_str(">>><"), Ok(vec![Node::Move(2)]));
}

#[test]
fn reads_and_writes_stay_separate() {
    assert_eq!(parse_str(",,"), Ok(vec![Node::Read, Node::Read]));
    assert_eq!(parse_str(".."), Ok(vec![Node::Write, Node::Write]));
}

#[test]
fn comments_coalesce() {
    assert_eq!(
        parse_str("ab+c"),
        Ok(vec![
            Node::Comment("ab".to_string()),
            Node::Delta(1),
            Node::Comment("c".to_string()),
        ])
    );
}

#[test]
fn different_runs_do_not_merge() {
    assert_eq!(parse_str("+>+"), Ok(vec![Node::Delta(1), Node::Move(1), Node::Delta(1)]));
}

#[test]
fn nested_blocks() {
    assert_eq!(
        parse_str("+[>[-]<]"),
        Ok(vec![
            Node::Delta(1),
            Node::Block(vec![
                Node::Move(1),
                Node::Block(vec![Node::Delta(-1)]),
                Node::Move(-1),
            ]),
        ])
    );
}

#[test]
fn unclosed_open_fails() {
    assert_eq!(parse_str("["), Err(ParseError::UnclosedOpen));
    assert_eq!(parse_str("[[]"), Err(ParseError::UnclosedOpen));
}

#[test]
fn unmatched_close_fails() {
    assert_eq!(parse_str("]"), Err(ParseError::UnmatchedClose));
    assert_eq!(parse_str("]["), Err(ParseError::UnmatchedClose));
    assert_eq!(parse_str("[]]["), Err(ParseError::UnmatchedClose));
}

#[test]
fn balanced_sources_parse() {
    assert!(parse_str("").is_ok());
    assert!(parse_str("[][[]]").is_ok());
    assert!(parse_str("+[->+<]>.").is_ok());
}

#[test]
fn parse_errors_come_before_evaluation() {
    let (r, io) = run_with(",.[", &[7]);
    assert_eq!(r.err(), Some(Error::Parse(ParseError::UnclosedOpen)));
    assert_eq!(io.consumed, 0);
    assert!(io.output.is_empty());
    let (r, io) = run_with(",.]", &[7]);
    assert_eq!(r.err(), Some(Error::Parse(ParseError::UnmatchedClose)));
    assert_eq!(io.consumed, 0);
    assert!(io.output.is_empty());
}

#[test]
fn reparse_gives_same_tree() {
    let toks = lex("ab+[->+<]>.,x");
    let a = parse(toks.clone());
    let b = parse(toks);
    assert_eq!(a, b);
}

#[test]
fn output_three() {
    let (r, io) = run_with("+++.", &[]);
    assert!(r.is_ok());
    assert_eq!(io.output, vec![3u8]);
}

#[test]
fn read_increment_write() {
    let (r, io) = run_with(",+.", &[65]);
    assert!(r.is_ok());
    assert_eq!(io.output, vec![66u8]);
    assert_eq!(io.consumed, 1);
}

#[test]
fn clear_loop_terminates() {
    let (r, _io) = run_with("+++[-]", &[]);
    let s = r.unwrap();
    assert_eq!(s.data_right[0], 0);
    assert_eq!(s.pointer, 0);
    // one Delta, one Block, three passes over one Delta
    assert_eq!(s.counter, 5);
}

#[test]
fn far_left_and_back() {
    let (r, _io) = run_with("<<<<< >>>>>", &[]);
    let s = r.unwrap();
    assert_eq!(s.pointer, 0);
    assert_eq!(s.data_left, vec![0u8; 6]);
    assert_eq!(s.data_right, vec![0u8]);
}

#[test]
fn boundary_between_zero_and_minus_one() {
    let (r, io) = run_with("+<++.>.", &[]);
    let s = r.unwrap();
    assert_eq!(io.output, vec![2u8, 1u8]);
    assert_eq!(s.data_right, vec![1u8]);
    assert_eq!(s.data_left, vec![0u8, 2u8]);
}

#[test]
fn loop_on_negative_cell() {
    let (r, io) = run_with("<+++[-.]", &[]);
    let s = r.unwrap();
    assert_eq!(io.output, vec![2u8, 1u8, 0u8]);
    assert_eq!(s.data_left[1], 0);
}

#[test]
fn right_growth_is_zero_filled() {
    let (r, _io) = run_with(">>>+", &[]);
    let s = r.unwrap();
    assert_eq!(s.data_right, vec![0u8, 0, 0, 1]);
    assert_eq!(s.pointer, 3);
}

#[test]
fn decrement_wraps_to_255() {
    let (r, io) = run_with("-.", &[]);
    assert!(r.is_ok());
    assert_eq!(io.output, vec![255u8]);
}

#[test]
fn long_increment_run_wraps() {
    let src = "+".repeat(257) + ".";
    let (r, io) = run_with(&src, &[]);
    assert!(r.is_ok());
    assert_eq!(io.output, vec![1u8]);
}

#[test]
fn large_delta_nodes_wrap() {
    let mut s = State::new();
    let mut io = Streams::new(vec![]);
    assert_eq!(eval(&Node::Delta(-257), &mut s, &mut io, LIMIT), Ok(()));
    assert_eq!(s.data_right[0], 255);
    assert_eq!(eval(&Node::Delta(1_000_000_000_001), &mut s, &mut io, LIMIT), Ok(()));
    assert_eq!(s.data_right[0], ((255u64 + 1_000_000_000_001u64) % 256) as u8);
    assert_eq!(eval(&Node::Delta(i128::MIN), &mut s, &mut io, LIMIT), Ok(()));
    assert_eq!(s.data_right[0], ((255u64 + 1_000_000_000_001u64) % 256) as u8);
}

#[test]
fn writes_raw_bytes() {
    let (r, io) = run_with(",.", &[200]);
    assert!(r.is_ok());
    assert_eq!(io.output, vec![200u8]);
}

#[test]
fn exhausted_input_fails() {
    let (r, _io) = run_with(",", &[]);
    assert_eq!(r.err(), Some(Error::Eval(EvalError::ReadInput)));
}

#[test]
fn input_consumed_in_order() {
    let (r, io) = run_with(",.,.,.", &[1, 2, 3]);
    assert!(r.is_ok());
    assert_eq!(io.output, vec![1u8, 2, 3]);
    assert_eq!(io.consumed, 3);
}

#[test]
fn input_shared_across_programs() {
    let mut io = Streams::new(vec![10, 20]);
    assert!(execute(",.", &mut io, LIMIT).is_ok());
    assert!(execute(",.", &mut io, LIMIT).is_ok());
    assert_eq!(io.output, vec![10u8, 20]);
}

#[test]
fn loop_limit_stops_endless_loop() {
    let mut io = Streams::new(vec![]);
    let r = execute("+[]", &mut io, 10);
    assert_eq!(r.err(), Some(Error::Eval(EvalError::LimitExceeded)));
}

#[test]
fn loop_limit_is_per_entry() {
    let mut io = Streams::new(vec![]);
    let r = execute("+++[>+++[-]<-]", &mut io, 3);
    assert!(r.is_ok());
    let mut io = Streams::new(vec![]);
    let r = execute("++++[-]", &mut io, 3);
    assert_eq!(r.err(), Some(Error::Eval(EvalError::LimitExceeded)));
}

#[test]
fn zero_cell_skips_loop() {
    let (r, io) = run_with("[.]", &[]);
    let s = r.unwrap();
    assert!(io.output.is_empty());
    assert_eq!(s.counter, 1);
}

#[test]
fn comments_do_not_count() {
    let (r, _io) = run_with("hello + world", &[]);
    assert_eq!(r.unwrap().counter, 1);
}

#[test]
fn missing_cell_is_invariant_violation() {
    let mut s = State::new();
    s.pointer = 5;
    let mut io = Streams::new(vec![]);
    assert_eq!(eval(&Node::Write, &mut s, &mut io, LIMIT), Err(EvalError::InvariantViolation));
    let mut s = State::new();
    s.pointer = -3;
    assert_eq!(eval(&Node::Delta(1), &mut s, &mut io, LIMIT), Err(EvalError::InvariantViolation));
}

#[test]
fn pointer_out_of_range_is_limit() {
    let mut s = State::new();
    let mut io = Streams::new(vec![]);
    assert_eq!(eval(&Node::Move(i128::MAX), &mut s, &mut io, LIMIT), Err(EvalError::LimitExceeded));
    let mut s = State::new();
    s.pointer = isize::MAX;
    s.data_right = vec![0];
    assert_eq!(eval(&Node::Move(1), &mut s, &mut io, LIMIT), Err(EvalError::LimitExceeded));
}

#[test]
fn counter_at_maximum_is_limit() {
    let mut s = State::new();
    s.counter = usize::MAX;
    let mut io = Streams::new(vec![]);
    assert_eq!(eval(&Node::Delta(1), &mut s, &mut io, LIMIT), Err(EvalError::LimitExceeded));
    assert_eq!(eval(&Node::Comment("x".to_string()), &mut s, &mut io, LIMIT), Ok(()));
}

#[test]
fn eval_nodes_runs_in_order() {
    let nodes = parse_str("++>+++<.>.").unwrap();
    let mut s = State::new();
    let mut io = Streams::new(vec![]);
    assert_eq!(eval_nodes(&nodes, &mut s, &mut io, LIMIT), Ok(()));
    assert_eq!(io.output, vec![2u8, 3]);
    assert_eq!(s.counter, 7);
}

#[test]
fn fresh_state() {
    let s = State::new();
    assert_eq!(s.counter, 0);
    assert_eq!(s.pointer, 0);
    assert_eq!(s.data_right, vec![0u8]);
    assert_eq!(s.data_left, vec![0u8]);
    assert_eq!(s.current(), Some(0));
}
