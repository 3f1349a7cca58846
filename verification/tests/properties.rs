use brainfuck::Command;
use brainfuck::Command::{BackwardsTo, ForwardsTo};
use brainfuck::{eval, read};

const FUEL: u64 = 1_000_000;

fn parse(source: &str) -> Vec<Command> {
    read(source).expect("source should parse")
}

#[test]
fn read_only_comments() {
    let expected: Vec<Command> = vec![];
    assert_eq!(expected, parse("plain prose with no commands at all"));
}

#[test]
fn read_empty_loop() {
    let expected = vec![ForwardsTo(1), BackwardsTo(0)];
    assert_eq!(expected, parse("[]"));
}

#[test]
fn read_open_error_takes_precedence() {
    match read("]][") {
        Ok(_) => assert!(false),
        Err(actual) => assert_eq!("Too many open braces", actual),
    };
}

#[test]
fn eval_eof_reads_zero() {
    let (output, done) = eval(parse(",."), &b""[..], FUEL);
    assert!(done);
    assert_eq!(vec![0u8], output);
}

#[test]
fn eval_eof_after_input_reads_zero() {
    let (output, done) = eval(parse(",.,."), &b"A"[..], FUEL);
    assert!(done);
    assert_eq!(vec![b'A', 0u8], output);
}

#[test]
fn eval_increment_wraps_to_zero() {
    let source = format!("{}.", "+".repeat(256));
    let (output, done) = eval(parse(&source), &b""[..], FUEL);
    assert!(done);
    assert_eq!(vec![0u8], output);
}

#[test]
fn eval_decrement_wraps_to_255() {
    let (output, done) = eval(parse("-."), &b""[..], FUEL);
    assert!(done);
    assert_eq!(vec![255u8], output);
}

#[test]
fn eval_pointer_underflow_stops() {
    let (output, done) = eval(parse("<+."), &b""[..], FUEL);
    assert!(done);
    assert_eq!(Vec::<u8>::new(), output);
}

#[test]
fn eval_pointer_overflow_stops() {
    let source = ">".repeat(30000);
    let (output, done) = eval(parse(&source), &b""[..], FUEL);
    assert!(done);
    assert_eq!(Vec::<u8>::new(), output);
}

#[test]
fn eval_reaches_last_cell() {
    let source = format!("{}+.", ">".repeat(29999));
    let (output, done) = eval(parse(&source), &b""[..], FUEL);
    assert!(done);
    assert_eq!(vec![1u8], output);
}

#[test]
fn eval_same_run_twice() {
    let first = eval(parse(",[.,]"), &b"determinism"[..], FUEL);
    let second = eval(parse(",[.,]"), &b"determinism"[..], FUEL);
    assert!(first.1 && second.1);
    assert_eq!(first.0, second.0);
    assert_eq!(b"determinism".to_vec(), first.0);
}

#[test]
fn eval_endless_loop_exhausts_fuel() {
    let (output, done) = eval(parse("+[]"), &b""[..], 1000);
    assert!(!done);
    assert_eq!(Vec::<u8>::new(), output);
}

#[test]
fn eval_more_fuel_keeps_finished_output() {
    let program = parse("++.");
    let small = eval(program.clone(), &b""[..], 3);
    let large = eval(program, &b""[..], FUEL);
    assert!(small.1 && large.1);
    assert_eq!(small.0, large.0);
    assert_eq!(vec![2u8], small.0);
}
