use brainfuck::{eval, read};

const FUEL: u64 = 1_000_000;

#[test]
fn eval_empty() {
    let input = b"";
    let mut output: Vec<u8> = vec![];

    match read("") {
        Ok(program) => {
            let (bytes, done) = eval(program, &input[..], FUEL);
            assert!(done);
            output = bytes;
        },
        Err(_) => assert!(false),
    }

    let expected = "";
    let actual = String::from_utf8(output).expect("Not UTF-8");

    assert_eq!(expected, actual);
}

#[test]
fn eval_new_line() {
    let input = b"";
    let mut output: Vec<u8> = vec![];

    match read("++++++++++.") {
        Ok(program) => {
            let (bytes, done) = eval(program, &input[..], FUEL);
            assert!(done);
            output = bytes;
        },
        Err(_) => assert!(false),
    }

    let expected = "\n";
    let actual = String::from_utf8(output).expect("Not UTF-8");

    assert_eq!(expected, actual);
}

#[test]
fn eval_cat() {
    let input = b"Hello, World!";
    let mut output: Vec<u8> = vec![];

    match read(",[.,]") {
        Ok(program) => {
            let (bytes, done) = eval(program, &input[..], FUEL);
            assert!(done);
            output = bytes;
        },
        Err(_) => assert!(false),
    }

    let expected = "Hello, World!";
    let actual = String::from_utf8(output).expect("Not UTF-8");

    assert_eq!(expected, actual);
}

#[test]
fn eval_hello_world() {
    let input = b"";
    let mut output: Vec<u8> = vec![];

    match read("++++++++[>++++[>++>+++>+++>+<<<<-]>+>->+>>+[<]<-]>>.>
>---.+++++++..+++.>.<<-.>.+++.------.--------.>+.>++.") {
        Ok(program) => {
            let (bytes, done) = eval(program, &input[..], FUEL);
            assert!(done);
            output = bytes;
        },
        Err(_) => assert!(false),
    }

    let expected = "Hello World!\n";
    let actual = String::from_utf8(output).expect("Not UTF-8");

    assert_eq!(expected, actual);
}
