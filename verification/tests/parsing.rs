use brainfuck::Command;
use brainfuck::Command::{
    BackwardsTo, DecrementPointer, DecrementValue, ForwardsTo, IncrementPointer, IncrementValue,
    InputValue, OutputValue,
};
use brainfuck::read;

#[test]
fn read_empty() {
    let source = "";
    let expected: Vec<Command> = vec![];

    match read(source) {
        Ok(actual) => assert_eq!(expected, actual),
        Err(_) => assert!(false),
    };
}

#[test]
fn read_simple() {
    let source = "+>-<.,<.-+>,";
    let expected = vec![
        IncrementValue,
        IncrementPointer,
        DecrementValue,
        DecrementPointer,
        OutputValue,
        InputValue,
        DecrementPointer,
        OutputValue,
        DecrementValue,
        IncrementValue,
        IncrementPointer,
        InputValue,
    ];

    match read(source) {
        Ok(actual) => assert_eq!(expected, actual),
        Err(_) => assert!(false),
    };
}

#[test]
fn read_garbage() {
    let source = ",.+lol,hey.>there<";
    let expected = vec![
        InputValue,
        OutputValue,
        IncrementValue,
        InputValue,
        OutputValue,
        IncrementPointer,
        DecrementPointer,
    ];

    match read(source) {
        Ok(actual) => assert_eq!(expected, actual),
        Err(_) => assert!(false),
    };
}

#[test]
fn read_loop() {
    let source = "[->+<]";
    let expected = vec![
        ForwardsTo(5),
        DecrementValue,
        IncrementPointer,
        IncrementValue,
        DecrementPointer,
        BackwardsTo(0),
    ];

    match read(source) {
        Ok(actual) => assert_eq!(expected, actual),
        Err(_) => assert!(false),
    };
}

#[test]
fn read_too_many_opens() {
    let source = "[,.[,.>+-][./.[]]";
    let expected = "Too many open braces";

    match read(source) {
        Ok(_) => assert!(false),
        Err(actual) => assert_eq!(expected, actual),
    };
}

#[test]
fn read_too_many_closes() {
    let source = "[,.[,.>+-][./.[]]]]]]";
    let expected = "Too many close braces";

    match read(source) {
        Ok(_) => assert!(false),
        Err(actual) => assert_eq!(expected, actual),
    };
}

#[test]
fn read_nested_loops() {
    let source = "[[]]";
    let expected = vec![ForwardsTo(3), ForwardsTo(2), BackwardsTo(1), BackwardsTo(0)];

    match read(source) {
        Ok(actual) => assert_eq!(expected, actual),
        Err(_) => assert!(false),
    };
}

#[test]
fn read_more_nested_loops() {
    let source = "[[[][]]]";
    let expected = vec![
        ForwardsTo(7),
        ForwardsTo(6),
        ForwardsTo(3),
        BackwardsTo(2),
        ForwardsTo(5),
        BackwardsTo(4),
        BackwardsTo(1),
        BackwardsTo(0),
    ];

    match read(source) {
        Ok(actual) => assert_eq!(expected, actual),
        Err(_) => assert!(false),
    };
}
