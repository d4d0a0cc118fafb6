use folders::collate::{arrange, can_compare, compare_all};
use folders::items::command::{Command, CommandType, Effect, Line};
use folders::items::expression::{read_literal, Expression, ExpressionType};
use folders::items::variable::{FloatTask, Number, Operator, Outcome, Type, Variable};
use folders::machine::{Action, Event, Machine};
use folders::scope::Scope;
use folders::text::{decimal_text, integer_text, parse_int, Piece};
use folders::transpile::{translate, Token};
use folders::utils::{
    get_byte, input_error, is_bit_set, sorted_subfolders, subfolder_count, Error, ErrorKind, Folder,
};

// ---- building trees ----

fn folder(path: &str, entries: Vec<Folder>) -> Folder {
    Folder { path: path.to_string(), entries: Some(entries) }
}

/// A folder with `count` empty sub-folders.
fn tally(path: &str, count: usize) -> Folder {
    folder(path, (0..count).map(|i| folder(&format!("{path}/{i}"), vec![])).collect())
}

fn hex_digit(path: &str, value: u8) -> Folder {
    folder(
        path,
        (0..4).map(|i| tally(&format!("{path}/{i}"), ((value >> (3 - i)) & 1) as usize)).collect(),
    )
}

fn byte(path: &str, value: u8) -> Folder {
    folder(
        path,
        vec![hex_digit(&format!("{path}/0"), value >> 4), hex_digit(&format!("{path}/1"), value & 15)],
    )
}

fn bytes(path: &str, values: &[u8]) -> Folder {
    folder(
        path,
        values.iter().enumerate().map(|(i, value)| byte(&format!("{path}/{i}"), *value)).collect(),
    )
}

enum E {
    Var(usize),
    Lit(usize, Vec<u8>),
    Bin(usize, Box<E>, Box<E>),
}

enum C {
    If(E, Vec<C>),
    While(E, Vec<C>),
    Declare(usize, usize),
    Let(usize, E),
    Print(E),
    Input(usize),
}

const INT: usize = 0;
const FLOAT: usize = 1;
const TEXT: usize = 2;
const CHAR: usize = 3;

const ADD: usize = 1;
const SUB: usize = 2;
const MUL: usize = 3;
const DIV: usize = 4;
const EQ: usize = 6;
const GT: usize = 7;
const LT: usize = 8;

fn int_of(value: i32) -> E {
    E::Lit(INT, value.to_le_bytes().to_vec())
}

fn float_of(value: f32) -> E {
    E::Lit(FLOAT, value.to_le_bytes().to_vec())
}

fn text_of(value: &str) -> E {
    E::Lit(TEXT, value.as_bytes().to_vec())
}

fn bin(kind: usize, left: E, right: E) -> E {
    E::Bin(kind, Box::new(left), Box::new(right))
}

fn expression(path: &str, e: &E) -> Folder {
    match e {
        E::Var(slot) => {
            folder(path, vec![tally(&format!("{path}/0"), 0), tally(&format!("{path}/1"), *slot)])
        }
        E::Lit(kind, values) => folder(
            path,
            vec![
                tally(&format!("{path}/0"), 5),
                tally(&format!("{path}/1"), *kind),
                bytes(&format!("{path}/2"), values),
            ],
        ),
        E::Bin(kind, left, right) => folder(
            path,
            vec![
                tally(&format!("{path}/0"), *kind),
                expression(&format!("{path}/1"), left),
                expression(&format!("{path}/2"), right),
            ],
        ),
    }
}

fn block(path: &str, commands: &[C]) -> Folder {
    // The entries are listed backwards: the engine has to put them in order.
    let mut entries: Vec<Folder> = commands
        .iter()
        .enumerate()
        .map(|(i, c)| command(&format!("{path}/{i}"), c))
        .collect();
    entries.reverse();
    folder(path, entries)
}

fn command(path: &str, c: &C) -> Folder {
    let tag = |count: usize| tally(&format!("{path}/0"), count);
    match c {
        C::If(condition, body) => folder(
            path,
            vec![
                tag(0),
                expression(&format!("{path}/1"), condition),
                block(&format!("{path}/2"), body),
            ],
        ),
        C::While(condition, body) => folder(
            path,
            vec![
                tag(1),
                expression(&format!("{path}/1"), condition),
                block(&format!("{path}/2"), body),
            ],
        ),
        C::Declare(kind, slot) => folder(
            path,
            vec![tag(2), tally(&format!("{path}/1"), *kind), tally(&format!("{path}/2"), *slot)],
        ),
        C::Let(slot, value) => folder(
            path,
            vec![tag(3), tally(&format!("{path}/1"), *slot), expression(&format!("{path}/2"), value)],
        ),
        C::Print(value) => folder(path, vec![tag(4), expression(&format!("{path}/1"), value)]),
        C::Input(slot) => folder(path, vec![tag(5), tally(&format!("{path}/1"), *slot)]),
    }
}

fn program(commands: &[C]) -> Folder {
    block("prog", commands)
}

// ---- running ----

fn number(n: Number) -> f32 {
    match n {
        Number::Int(i) => i as f32,
        Number::Float(bits) => f32::from_bits(bits),
    }
}

fn compute(task: FloatTask) -> u32 {
    let left = number(task.left);
    let right = number(task.right);
    let result = match task.operator {
        Operator::Add => left + right,
        Operator::Subtract => left - right,
        Operator::Multiply => left * right,
        Operator::Divide => left / right,
    };
    result.to_bits()
}

fn show(piece: Piece) -> String {
    match piece {
        Piece::Text(text) => text,
        Piece::Float(bits) => format!("{}", f32::from_bits(bits)),
    }
}

fn line(text: &str) -> Line {
    Line { text: text.to_string(), float: text.parse::<f32>().ok().map(|f| f.to_bits()) }
}

/// Runs a program to its end and returns what it wrote, piece by piece.
fn run(root: &Folder, inputs: &[&str]) -> Result<Vec<String>, Error> {
    let mut machine = Machine::new(root)?;
    let mut written = vec![];
    let mut event = Event::Nothing;
    let mut next_line = 0;
    for _ in 0..100_000 {
        let (after, action) = machine.step(event);
        machine = after;
        event = Event::Nothing;
        match action {
            Action::Continue => {}
            Action::Write(piece) => written.push(show(piece)),
            Action::ReadLine => {
                event = Event::Line(line(inputs[next_line]));
                next_line += 1;
            }
            Action::Compute(task) => event = Event::Float(compute(task)),
            Action::Done => {
                assert!(machine.is_over());
                return Ok(written);
            }
            Action::Fail(e) => {
                assert!(machine.is_over());
                return Err(e);
            }
        }
    }
    panic!("the program did not end");
}

fn output(commands: &[C], inputs: &[&str]) -> String {
    run(&program(commands), inputs).unwrap().concat()
}

fn failure(commands: &[C]) -> Error {
    run(&program(commands), &[]).unwrap_err()
}

/// Works an expression out in a scope, doing the arithmetic that it asks for.
fn value_in(scope: &Scope, e: &E) -> Result<Variable, Error> {
    let root = expression("e", e);
    let expression = Expression::new(&root)?;
    let mut answers = vec![];
    loop {
        match expression.execute(scope, &answers)? {
            Outcome::Value(value) => return Ok(value),
            Outcome::Float(task) => answers.push(compute(task)),
        }
    }
}

fn value_of(e: &E) -> Result<Variable, Error> {
    value_in(&Scope::new(None), e)
}

fn float_value(value: f32) -> Variable {
    Variable::Float(Some(value.to_bits()))
}

fn text_value(value: &str) -> Variable {
    Variable::String(Some(value.to_string()))
}

fn paths(found: Vec<&Folder>) -> Vec<String> {
    found.iter().map(|f| f.path.clone()).collect()
}

// ---- the decoder ----

#[test]
fn sub_folders_come_in_natural_order() {
    let root = folder(
        "p",
        vec![tally("p/file10", 0), tally("p/file2", 0), tally("p/file1", 0), tally("p/10", 0), tally("p/9", 0)],
    );
    let found = sorted_subfolders(&root).unwrap();
    assert_eq!(paths(found), vec!["p/9", "p/10", "p/file1", "p/file2", "p/file10"]);
}

#[test]
fn order_does_not_look_at_case() {
    let root = folder("p", vec![tally("p/B", 0), tally("p/a", 0), tally("p/C", 0)]);
    let found = sorted_subfolders(&root).unwrap();
    assert_eq!(paths(found), vec!["p/a", "p/B", "p/C"]);
}

#[test]
fn equal_names_keep_their_order() {
    let root = folder("p", vec![tally("p/A", 1), tally("p/a", 2), tally("p/A", 3)]);
    let found = sorted_subfolders(&root).unwrap();
    let counts: Vec<usize> = found.iter().map(|f| subfolder_count(f).unwrap()).collect();
    assert_eq!(counts, vec![1, 2, 3]);
}

#[test]
fn a_folder_that_was_not_listed_is_malformed() {
    let root = Folder { path: "gone".to_string(), entries: None };
    let e = sorted_subfolders(&root).unwrap_err();
    assert_eq!(e.kind, ErrorKind::Decode);
    assert_eq!(e.path, Some("gone".to_string()));
    assert_eq!(e.slot, None);
    let e = subfolder_count(&root).unwrap_err();
    assert_eq!(e.kind, ErrorKind::Decode);
    assert_eq!(e.path, Some("gone".to_string()));
    let e = is_bit_set(&root).unwrap_err();
    assert_eq!((e.kind, e.path, e.slot), (ErrorKind::Decode, Some("gone".to_string()), None));
}

#[test]
fn names_with_numbers_too_great_cannot_be_put_in_order() {
    let root = folder("p", vec![tally("p/a5234567890", 0), tally("p/a6234567890", 0)]);
    let e = sorted_subfolders(&root).unwrap_err();
    assert_eq!(e.kind, ErrorKind::Decode);
    assert_eq!(e.path, Some("p".to_string()));
    let root = folder("p", vec![tally("p/4294967296", 0), tally("p/3294967295", 0)]);
    assert_eq!(sorted_subfolders(&root).unwrap_err().kind, ErrorKind::Decode);
    let root = folder("p", vec![tally("p/20240101123045", 0), tally("p/30240101123045", 0)]);
    assert_eq!(sorted_subfolders(&root).unwrap_err().kind, ErrorKind::Decode);
}

#[test]
fn numbers_that_fit_are_put_in_order() {
    let root = folder("p", vec![tally("p/4294967295", 0), tally("p/3294967295", 0)]);
    assert_eq!(paths(sorted_subfolders(&root).unwrap()), vec!["p/3294967295", "p/4294967295"]);
    let root = folder("p", vec![tally("p/a2000000000", 0), tally("p/a1000000000", 0)]);
    assert_eq!(paths(sorted_subfolders(&root).unwrap()), vec!["p/a1000000000", "p/a2000000000"]);
    let root = folder("p", vec![tally("p/200000000", 0), tally("p/100000000", 0)]);
    assert_eq!(paths(sorted_subfolders(&root).unwrap()), vec!["p/100000000", "p/200000000"]);
    // it is the number that counts, not how many digits spell it
    let root = folder("p", vec![tally("p/0000000000000002", 0), tally("p/1", 0)]);
    assert_eq!(paths(sorted_subfolders(&root).unwrap()), vec!["p/1", "p/0000000000000002"]);
}

#[test]
fn long_numbers_that_are_not_read_do_no_harm() {
    // the names differ in a letter first
    let root = folder("p", vec![tally("p/b20240101123045", 0), tally("p/a20240101123045", 0)]);
    let found = sorted_subfolders(&root).unwrap();
    assert_eq!(paths(found), vec!["p/a20240101123045", "p/b20240101123045"]);
    assert_eq!(subfolder_count(&root).unwrap(), 2);
    // the names differ late in the number
    let root = folder("p", vec![tally("p/a12345678902", 0), tally("p/a12345678901", 0)]);
    let found = sorted_subfolders(&root).unwrap();
    assert_eq!(paths(found), vec!["p/a12345678901", "p/a12345678902"]);
    let root = folder("p", vec![tally("p/run20240102123045", 0), tally("p/run20240101123045", 0)]);
    let found = sorted_subfolders(&root).unwrap();
    assert_eq!(paths(found), vec!["p/run20240101123045", "p/run20240102123045"]);
    // the names differ in a small number first
    let root = folder("p", vec![tally("p/2_20240101123045", 0), tally("p/1_20240101123045", 0)]);
    let found = sorted_subfolders(&root).unwrap();
    assert_eq!(paths(found), vec!["p/1_20240101123045", "p/2_20240101123045"]);
    // the names differ in letters of which neither is part of a number
    let root = folder("p", vec![tally("p/\u{fc}1", 0), tally("p/\u{e9}99999999999", 0)]);
    let found = sorted_subfolders(&root).unwrap();
    assert_eq!(paths(found), vec!["p/\u{e9}99999999999", "p/\u{fc}1"]);
    assert_eq!(subfolder_count(&root).unwrap(), 2);
    // one name is the start of the other
    let root = folder("p", vec![tally("p/123456789012345678901", 0), tally("p/12345678901234567890", 0)]);
    let found = sorted_subfolders(&root).unwrap();
    assert_eq!(paths(found), vec!["p/12345678901234567890", "p/123456789012345678901"]);
    // the long number stands in what the names share
    let root = folder(
        "tmp12345678901234/p",
        vec![tally("tmp12345678901234/p/b", 0), tally("tmp12345678901234/p/a", 0)],
    );
    let found = sorted_subfolders(&root).unwrap();
    assert_eq!(paths(found), vec!["tmp12345678901234/p/a", "tmp12345678901234/p/b"]);
}

#[test]
fn a_single_sub_folder_needs_no_comparing() {
    let root = folder("p", vec![tally("p/12345678901234", 0)]);
    assert_eq!(paths(sorted_subfolders(&root).unwrap()), vec!["p/12345678901234"]);
}

#[test]
fn items_are_arranged_by_what_comparing_them_came_to() {
    assert_eq!(arrange(&vec![], 0), Vec::<usize>::new());
    assert_eq!(arrange(&vec![vec![]], 1), vec![0]);
    assert_eq!(arrange(&vec![vec![], vec![false]], 2), vec![0, 1]);
    assert_eq!(arrange(&vec![vec![], vec![true]], 2), vec![1, 0]);
    assert_eq!(arrange(&vec![vec![], vec![true], vec![false, false]], 3), vec![1, 0, 2]);
    assert_eq!(arrange(&vec![vec![], vec![true], vec![true, false]], 3), vec![1, 2, 0]);
    assert_eq!(arrange(&vec![vec![], vec![true], vec![true, true]], 3), vec![2, 1, 0]);
    assert_eq!(arrange(&vec![vec![], vec![false], vec![false, true]], 3), vec![0, 2, 1]);
    // an item is only moved past those right before it that come after it
    assert_eq!(arrange(&vec![vec![], vec![false], vec![true, false]], 3), vec![0, 1, 2]);
    // what the table does not hold was not found
    assert_eq!(arrange(&vec![], 3), vec![0, 1, 2]);
    assert_eq!(arrange(&vec![vec![], vec![]], 2), vec![0, 1]);
    assert_eq!(arrange(&vec![vec![], vec![true], vec![true, true]], 2), vec![1, 0]);
}

#[test]
fn texts_are_compared_with_those_before_them() {
    let keys: Vec<String> = ["b", "a", "a10", "a9"].iter().map(|k| k.to_string()).collect();
    let after = compare_all(&keys).unwrap();
    assert_eq!(after, vec![vec![], vec![true], vec![true, false], vec![true, false, true]]);
    assert_eq!(arrange(&after, 4), vec![1, 3, 2, 0]);
    let keys: Vec<String> = ["1234567890", "2"].iter().map(|k| k.to_string()).collect();
    assert_eq!(compare_all(&keys), Some(vec![vec![], vec![true]]));
    let keys: Vec<String> = ["12345678901234", "2"].iter().map(|k| k.to_string()).collect();
    assert_eq!(compare_all(&keys), None);
    assert_eq!(compare_all(&vec![]), Some(vec![]));
}

#[test]
fn what_can_be_compared() {
    assert!(can_compare("", ""));
    assert!(can_compare("a", "b"));
    assert!(can_compare("123456789", "987654321"));
    assert!(can_compare("1234567890", "987654321"));
    assert!(can_compare("4294967295", "5"));
    assert!(can_compare("5", "4294967295"));
    assert!(!can_compare("4294967296", "5"));
    assert!(!can_compare("5", "4294967296"));
    assert!(!can_compare("10000000000", "20000000000"));
    assert!(can_compare("a1000000000", "a2000000000"));
    // it is the number that counts, not how many digits spell it
    assert!(can_compare("00000000000000000001", "1"));
    assert!(can_compare("000000000004294967295", "1"));
    assert!(!can_compare("000000000004294967296", "1"));
    // no number is read where one of two characters that differ is no part of a number
    assert!(can_compare("x12345678901234", "y"));
    assert!(can_compare("y", "x-12345678901234-"));
    assert!(can_compare("a20240101123045", "b20240101123045"));
    assert!(can_compare("12345678901234", "x"));
    assert!(can_compare("1-12345678901234", "12345678901234"));
    assert!(can_compare("\u{e9}99999999999", "\u{fc}1"));
    assert!(can_compare("\u{e9}99999999999", "99999999999"));
    assert!(can_compare("\u{661}12345678901234", "x"));
    // nor where one text is the start of the other
    assert!(can_compare("12345678901234", "12345678901234"));
    assert!(can_compare("12345678901234", "123456789012345"));
    assert!(can_compare("", "12345678901234"));
    // what the texts have alike is passed
    assert!(can_compare("12345678901234a", "12345678901234b"));
    assert!(can_compare("123456789012341", "123456789012342"));
    // no more is read once two numbers differ
    assert!(can_compare("1x12345678901234", "2x1"));
    assert!(can_compare("1x1", "2x12345678901234"));
    assert!(can_compare("1_20240101123045", "2_20240101123045"));
    // behind two numbers that are equal one more character is passed
    assert!(can_compare("1x12345678901234", "01x1"));
    assert!(can_compare("1x99999999999", "01x9"));
    assert!(!can_compare("1x99999999999", "01x5"));
    assert!(!can_compare("01x5", "1x99999999999"));
    assert!(can_compare("1x5", "01x4199999999x"));
    assert!(!can_compare("1x5", "01x4299999999x"));
    // digits of other scripts are part of a number, but spell nothing
    assert!(can_compare("\u{661}\u{662}\u{663}", "\u{662}"));
    assert!(can_compare("\u{661}12345678901234", "\u{662}"));
    assert!(!can_compare("\u{661}5", "\u{662}99999999999"));
    assert!(can_compare("\u{661}5", "\u{662}5x99999999999"));
    assert!(!can_compare("\u{661}x5", "\u{662}x99999999999"));
    assert!(can_compare("\u{661}99999999999", "7"));
    assert!(!can_compare("\u{661}99999999999", "\u{662}5"));
}

#[test]
fn what_can_be_compared_is_compared() {
    let texts = [
        "", "a", "b", "5", "7", "01x1", "01x9", "1x5", "2x1", "x", "y", "123456789", "987654321",
        "1234567890", "4294967295", "3294967295", "4294967296", "10000000000", "20000000000",
        "a1000000000", "a2000000000", "00000000000000000001", "000000000004294967295",
        "000000000004294967296", "x12345678901234", "x-12345678901234-", "a20240101123045",
        "b20240101123045", "12345678901234", "123456789012345", "1-12345678901234",
        "12345678901234a", "12345678901234b", "1x12345678901234", "2x12345678901234",
        "1x99999999999", "01x5", "01x4199999999x", "01x4299999999x", "1_20240101123045",
        "2_20240101123045", "\u{e9}99999999999", "\u{fc}1", "99999999999", "\u{661}", "\u{662}",
        "\u{661}5", "\u{662}5", "\u{661}99999999999", "\u{662}99999999999", "\u{661}x5",
        "\u{662}x99999999999", "\u{662}5x99999999999", "x9", "x10", "x1a",
    ];
    let mut compared = 0;
    for left in texts {
        for right in texts {
            if can_compare(left, right) {
                let order = human_sort::compare(left, right);
                assert_eq!(human_sort::compare(left, right), order);
                compared += 1;
            }
        }
    }
    assert!(compared > texts.len());
}

#[test]
fn sub_folders_are_counted() {
    assert_eq!(subfolder_count(&tally("t", 0)).unwrap(), 0);
    assert_eq!(subfolder_count(&tally("t", 7)).unwrap(), 7);
}

#[test]
fn a_bit_is_set_by_a_sub_folder() {
    assert!(!is_bit_set(&tally("b", 0)).unwrap());
    assert!(is_bit_set(&tally("b", 1)).unwrap());
    assert!(is_bit_set(&tally("b", 3)).unwrap());
}

#[test]
fn bytes_are_read_most_significant_bit_first() {
    assert_eq!(get_byte(&byte("b", 0)).unwrap(), 0);
    assert_eq!(get_byte(&byte("b", 1)).unwrap(), 1);
    assert_eq!(get_byte(&byte("b", 0x80)).unwrap(), 0x80);
    assert_eq!(get_byte(&byte("b", 0xa5)).unwrap(), 0xa5);
    assert_eq!(get_byte(&byte("b", 0xff)).unwrap(), 0xff);
}

#[test]
fn every_byte_is_read_back() {
    for value in 0..=255u8 {
        assert_eq!(get_byte(&byte("b", value)).unwrap(), value);
    }
}

#[test]
fn a_byte_has_two_digits() {
    let wrong = folder("b", vec![hex_digit("b/0", 1)]);
    let e = get_byte(&wrong).unwrap_err();
    assert_eq!(e.kind, ErrorKind::Decode);
    assert_eq!(e.path, Some("b".to_string()));
}

#[test]
fn a_digit_has_four_bits() {
    let wrong = folder("b", vec![hex_digit("b/0", 1), tally("b/1", 3)]);
    let e = get_byte(&wrong).unwrap_err();
    assert_eq!(e.kind, ErrorKind::Decode);
    assert_eq!(e.path, Some("b/1".to_string()));
    let wrong = folder("b", vec![tally("b/0", 5), hex_digit("b/1", 3)]);
    let e = get_byte(&wrong).unwrap_err();
    assert_eq!(e.path, Some("b/0".to_string()));
}

#[test]
fn a_bit_that_was_not_listed_is_no_bit() {
    let unlisted = Folder { path: "b/1/2".to_string(), entries: None };
    let low = folder("b/1", vec![tally("b/1/0", 0), tally("b/1/1", 1), unlisted, tally("b/1/3", 0)]);
    let wrong = folder("b", vec![hex_digit("b/0", 1), low]);
    let e = get_byte(&wrong).unwrap_err();
    assert_eq!((e.kind, e.path), (ErrorKind::Decode, Some("b/1/2".to_string())));
}

#[test]
fn failures_are_put_in_words() {
    assert_eq!(input_error("a/b".to_string()).message(), "a/b : malformed folder");
    let e = Error { kind: ErrorKind::DuplicateDeclaration, path: None, slot: Some(12) };
    assert_eq!(e.message(), "variable declared more than once var_12");
    let e = Error { kind: ErrorKind::UndeclaredVariable, path: Some("p/1".to_string()), slot: Some(0) };
    assert_eq!(e.message(), "p/1 : use of undeclared variable var_0");
    let e = Error { kind: ErrorKind::UninitializedUse, path: Some("p".to_string()), slot: Some(3) };
    assert_eq!(e.message(), "p : use of uninitialized variable var_3");
    let e = Error { kind: ErrorKind::TypeMismatch, path: None, slot: None };
    assert_eq!(e.message(), "types do not go together");
    let e = Error { kind: ErrorKind::UnsupportedOperation, path: Some("e".to_string()), slot: None };
    assert_eq!(e.message(), "e : operation not supported for this type");
}

#[test]
fn input_error_is_a_decode_error() {
    let e = input_error("here".to_string());
    assert_eq!(e.kind, ErrorKind::Decode);
    assert_eq!(e.path, Some("here".to_string()));
    assert_eq!(e.slot, None);
}

// ---- values ----

#[test]
fn a_count_selects_a_type() {
    assert_eq!(Variable::new(0).unwrap(), Variable::Int(None));
    assert_eq!(Variable::new(1).unwrap(), Variable::Float(None));
    assert_eq!(Variable::new(2).unwrap(), Variable::String(None));
    assert_eq!(Variable::new(3).unwrap(), Variable::Char(None));
    let e = Variable::new(4).unwrap_err();
    assert_eq!(e.kind, ErrorKind::Decode);
    assert_eq!(Type::from(0).unwrap(), Type::Int);
    assert_eq!(Type::from(1).unwrap(), Type::Float);
    assert_eq!(Type::from(2).unwrap(), Type::String);
    assert_eq!(Type::from(3).unwrap(), Type::Char);
    for count in [4, 5, 17, usize::MAX] {
        let e = Type::from(count).unwrap_err();
        assert_eq!((e.kind, e.path, e.slot), (ErrorKind::Decode, None, None));
        assert_eq!(Variable::new(count).unwrap_err().kind, ErrorKind::Decode);
    }
    assert_eq!(Variable::from(Type::Char), Variable::Char(None));
    assert_eq!(Variable::from(Type::String), Variable::String(None));
}

#[test]
fn values_know_their_type() {
    assert_eq!(Variable::Int(Some(1)).get_type(), Type::Int);
    assert_eq!(float_value(1.0).get_type(), Type::Float);
    assert_eq!(text_value("a").get_type(), Type::String);
    assert_eq!(Variable::Char(None).get_type(), Type::Char);
    assert!(Variable::Int(Some(1)).same_as(&Variable::Int(None)));
    assert!(!Variable::Int(Some(1)).same_as(&float_value(1.0)));
    assert!(Variable::Int(None).is_null());
    assert!(!Variable::Int(Some(0)).is_null());
}

#[test]
fn truthiness() {
    assert!(Variable::Int(Some(3)).is_truthy());
    assert!(Variable::Int(Some(-1)).is_truthy());
    assert!(Variable::Int(Some(0)).is_falsy());
    assert!(float_value(0.5).is_truthy());
    assert!(float_value(0.0).is_falsy());
    assert!(float_value(-0.0).is_falsy());
    assert!(float_value(f32::NAN).is_truthy());
    assert!(Variable::Char(Some('a')).is_truthy());
    assert!(Variable::Char(Some('\0')).is_falsy());
    assert!(text_value("x").is_truthy());
    assert!(text_value("").is_falsy());
    assert!(Variable::Int(None).is_falsy());
    assert!(Variable::Float(None).is_falsy());
    assert!(Variable::String(None).is_falsy());
    assert!(Variable::Char(None).is_falsy());
    assert!(!Variable::Int(None).is_truthy());
}

#[test]
fn values_are_shown() {
    assert_eq!(show(Variable::Int(Some(5)).render()), "5");
    assert_eq!(show(Variable::Int(Some(0)).render()), "0");
    assert_eq!(show(Variable::Int(Some(-17)).render()), "-17");
    assert_eq!(show(Variable::Int(Some(i32::MAX)).render()), "2147483647");
    assert_eq!(show(Variable::Int(Some(i32::MIN)).render()), "-2147483648");
    assert_eq!(show(float_value(3.5).render()), "3.5");
    assert_eq!(show(text_value("hello").render()), "hello");
    assert_eq!(show(Variable::Char(Some('x')).render()), "x");
    assert_eq!(show(Variable::Int(None).render()), "null");
    assert_eq!(show(Variable::Float(None).render()), "null");
    assert_eq!(show(Variable::String(None).render()), "null");
    assert_eq!(show(Variable::Char(None).render()), "null");
}

fn done(r: Result<Outcome, Error>) -> Variable {
    match r.unwrap() {
        Outcome::Value(value) => value,
        Outcome::Float(task) => Variable::Float(Some(compute(task))),
    }
}

#[test]
fn integers_are_added_subtracted_and_multiplied() {
    let i = |v: i32| Variable::Int(Some(v));
    assert_eq!(done(i(2).add(i(3))), i(5));
    assert_eq!(done(i(2).sub(i(3))), i(-1));
    assert_eq!(done(i(4).mul(i(-3))), i(-12));
    assert_eq!(done(i(i32::MAX).add(i(1))), i(i32::MIN));
    assert_eq!(done(i(i32::MIN).sub(i(1))), i(i32::MAX));
    assert_eq!(done(i(65536).mul(i(65536))), i(0));
}

#[test]
fn division_of_integers_gives_a_float() {
    let i = |v: i32| Variable::Int(Some(v));
    match i(7).div(i(2)).unwrap() {
        Outcome::Float(task) => {
            assert_eq!(
                task,
                FloatTask { operator: Operator::Divide, left: Number::Int(7), right: Number::Int(2) }
            );
            assert_eq!(f32::from_bits(compute(task)), 3.5);
        }
        Outcome::Value(_) => panic!("an integer was divided as an integer"),
    }
    assert_eq!(done(i(7).div(i(2))), float_value(3.5));
    assert_eq!(done(i(4).div(i(2))), float_value(2.0));
    assert_eq!(value_of(&bin(DIV, int_of(7), int_of(2))).unwrap(), float_value(3.5));
    assert_eq!(value_of(&bin(DIV, int_of(4), int_of(2))).unwrap(), float_value(2.0));
    assert_eq!(value_of(&bin(DIV, int_of(4), int_of(2))).unwrap().get_type(), Type::Float);
}

#[test]
fn arithmetic_with_a_float_is_left_to_the_caller() {
    let i = |v: i32| Variable::Int(Some(v));
    match i(1).add(float_value(0.5)).unwrap() {
        Outcome::Float(task) => assert_eq!(
            task,
            FloatTask {
                operator: Operator::Add,
                left: Number::Int(1),
                right: Number::Float(0.5f32.to_bits()),
            }
        ),
        Outcome::Value(_) => panic!(),
    }
    assert_eq!(done(i(1).add(float_value(0.5))), float_value(1.5));
    assert_eq!(done(float_value(0.5).sub(i(1))), float_value(-0.5));
    assert_eq!(done(float_value(1.5).mul(float_value(2.0))), float_value(3.0));
    assert_eq!(done(float_value(1.0).div(i(4))), float_value(0.25));
}

#[test]
fn texts_are_joined() {
    assert_eq!(done(text_value("ab").add(text_value("cd"))), text_value("abcd"));
    assert_eq!(done(text_value("").add(text_value(""))), text_value(""));
}

fn kind_of(r: Result<Outcome, Error>) -> ErrorKind {
    r.unwrap_err().kind
}

#[test]
fn types_that_do_not_go_together() {
    let i = || Variable::Int(Some(1));
    let t = || text_value("a");
    let c = || Variable::Char(Some('a'));
    assert_eq!(kind_of(t().add(i())), ErrorKind::TypeMismatch);
    assert_eq!(kind_of(i().add(t())), ErrorKind::TypeMismatch);
    assert_eq!(kind_of(c().add(c())), ErrorKind::TypeMismatch);
    assert_eq!(kind_of(i().add(c())), ErrorKind::TypeMismatch);
    assert_eq!(kind_of(float_value(1.0).add(t())), ErrorKind::TypeMismatch);
    assert_eq!(kind_of(t().mul(t())), ErrorKind::UnsupportedOperation);
    assert_eq!(kind_of(t().sub(t())), ErrorKind::UnsupportedOperation);
    assert_eq!(kind_of(t().div(i())), ErrorKind::UnsupportedOperation);
    assert_eq!(kind_of(c().mul(i())), ErrorKind::UnsupportedOperation);
    assert_eq!(kind_of(i().mul(c())), ErrorKind::UnsupportedOperation);
    assert_eq!(kind_of(i().sub(t())), ErrorKind::UnsupportedOperation);
}

#[test]
fn unset_operands() {
    let i = || Variable::Int(Some(1));
    assert_eq!(kind_of(Variable::Int(None).add(i())), ErrorKind::UninitializedUse);
    assert_eq!(kind_of(i().add(Variable::Int(None))), ErrorKind::UninitializedUse);
    assert_eq!(kind_of(i().div(Variable::Float(None))), ErrorKind::UninitializedUse);
    assert_eq!(kind_of(Variable::String(None).add(text_value("a"))), ErrorKind::UninitializedUse);
    assert_eq!(kind_of(text_value("a").add(Variable::String(None))), ErrorKind::UninitializedUse);
    // the type of the left operand is looked at before anything else
    assert_eq!(kind_of(Variable::Char(None).add(i())), ErrorKind::TypeMismatch);
    // and the left operand before the right one
    assert_eq!(kind_of(Variable::Int(None).add(text_value("a"))), ErrorKind::UninitializedUse);
}

#[test]
fn values_are_compared() {
    let i = |v: i32| Variable::Int(Some(v));
    assert!(i(1).less_than(&i(2)));
    assert!(!i(2).less_than(&i(2)));
    assert!(i(3).greater_than(&i(2)));
    assert!(i(2) == i(2));
    assert!(i(2) != i(3));
    assert!(Variable::Int(None).less_than(&i(i32::MIN)));
    assert!(Variable::Int(None) == Variable::Int(None));
    assert!(!Variable::Int(None).less_than(&Variable::Int(None)));
    assert!(text_value("abc").less_than(&text_value("abd")));
    assert!(text_value("ab").less_than(&text_value("abc")));
    assert!(!text_value("abc").less_than(&text_value("ab")));
    assert!(!text_value("abc").less_than(&text_value("abc")));
    assert!(text_value("Z").less_than(&text_value("a")));
    assert!(text_value("abc") == text_value("abc"));
    assert!(text_value("abc") != text_value("abd"));
    assert!(text_value("abc") != text_value("ab"));
    assert!(Variable::Char(Some('a')).less_than(&Variable::Char(Some('b'))));
    assert!(Variable::Char(Some('a')) == Variable::Char(Some('a')));
}

#[test]
fn floats_are_compared_as_numbers() {
    let f = float_value;
    assert!(f(-1.0).less_than(&f(2.0)));
    assert!(f(-2.0).less_than(&f(-1.0)));
    assert!(f(1.0).less_than(&f(1.5)));
    assert!(!f(1.5).less_than(&f(1.0)));
    assert!(f(2.0).greater_than(&f(-3.0)));
    assert!(f(f32::NEG_INFINITY).less_than(&f(f32::MIN)));
    assert!(f(f32::MAX).less_than(&f(f32::INFINITY)));
    assert!(f(0.0) == f(-0.0));
    assert!(!f(-0.0).less_than(&f(0.0)));
    assert!(f(1.0) == f(1.0));
    assert!(f(1.0) != f(2.0));
    assert!(f(f32::NAN) != f(f32::NAN));
    assert!(!f(f32::NAN).less_than(&f(1.0)));
    assert!(!f(f32::NAN).greater_than(&f(1.0)));
    assert!(!f(1.0).less_than(&f(f32::NAN)));
    assert!(Variable::Float(None).less_than(&f(f32::NAN)));
    assert!(Variable::Float(None) == Variable::Float(None));
}

#[test]
fn values_of_different_types_are_ordered_by_type() {
    let i = Variable::Int(Some(100));
    let f = float_value(1.0);
    let t = text_value("a");
    let c = Variable::Char(Some('a'));
    assert!(i.less_than(&f));
    assert!(f.less_than(&t));
    assert!(t.less_than(&c));
    assert!(i.less_than(&c));
    assert!(c.greater_than(&i));
    assert!(!c.less_than(&t));
    assert!(!f.less_than(&i));
    assert!(i != f);
    assert!(Variable::Int(Some(1)) != float_value(1.0));
    assert!(Variable::Int(None) != Variable::Float(None));
}

// ---- the scope ----

#[test]
fn a_slot_is_declared_once_in_a_frame() {
    let mut scope = Scope::new(None);
    scope.declare_variable(0, 0).unwrap();
    let e = scope.declare_variable(0, 0).unwrap_err();
    assert_eq!(e.kind, ErrorKind::DuplicateDeclaration);
    assert_eq!(e.slot, Some(0));
    let e = scope.declare_variable(1, 0).unwrap_err();
    assert_eq!(e.kind, ErrorKind::DuplicateDeclaration);
    let e = scope.declare_variable_with_type(Type::Char, 0).unwrap_err();
    assert_eq!(e.kind, ErrorKind::DuplicateDeclaration);
    assert_eq!(scope.get_variable(0), Some(Variable::Int(None)));
}

#[test]
fn an_inner_frame_can_shadow_a_slot() {
    let mut outer = Scope::new(None);
    outer.declare_variable(0, 0).unwrap();
    let mut inner = Scope::new(Some(outer));
    assert_eq!(inner.get_variable(0), Some(Variable::Int(None)));
    inner.declare_variable(1, 0).unwrap();
    assert_eq!(inner.get_variable(0), Some(Variable::Float(None)));
    inner.set_variable(0, float_value(1.5)).unwrap();
    assert_eq!(inner.get_variable(0), Some(float_value(1.5)));
    let outer = inner.into_parent().unwrap();
    assert_eq!(outer.get_variable(0), Some(Variable::Int(None)));
    assert!(outer.into_parent().is_none());
}

#[test]
fn a_declaration_wants_a_type() {
    let mut scope = Scope::new(None);
    let e = scope.declare_variable(4, 0).unwrap_err();
    assert_eq!(e.kind, ErrorKind::Decode);
    assert_eq!(scope.get_variable(0), None);
    scope.declare_variable_with_type(Type::String, 3).unwrap();
    assert_eq!(scope.get_variable(3), Some(Variable::String(None)));
}

#[test]
fn assignment_wants_the_type_of_the_slot() {
    let mut scope = Scope::new(None);
    scope.declare_variable(0, 0).unwrap();
    let e = scope.set_variable(0, text_value("a")).unwrap_err();
    assert_eq!(e.kind, ErrorKind::TypeMismatch);
    assert_eq!(e.slot, Some(0));
    let e = scope.set_or_create_variable(0, text_value("a")).unwrap_err();
    assert_eq!(e.kind, ErrorKind::TypeMismatch);
    assert_eq!(scope.get_variable(0), Some(Variable::Int(None)));
    scope.set_variable(0, Variable::Int(Some(4))).unwrap();
    assert_eq!(scope.get_variable(0), Some(Variable::Int(Some(4))));
}

#[test]
fn assignment_to_an_undeclared_slot() {
    let mut scope = Scope::new(None);
    let e = scope.set_variable(7, Variable::Int(Some(1))).unwrap_err();
    assert_eq!(e.kind, ErrorKind::UndeclaredVariable);
    assert_eq!(e.slot, Some(7));
    assert_eq!(scope.get_variable(7), None);
    scope.set_or_create_variable(7, text_value("a")).unwrap();
    assert_eq!(scope.get_variable(7), Some(text_value("a")));
    scope.set_or_create_variable(7, text_value("b")).unwrap();
    assert_eq!(scope.get_variable(7), Some(text_value("b")));
    let e = scope.set_or_create_variable(7, Variable::Int(Some(1))).unwrap_err();
    assert_eq!(e.kind, ErrorKind::TypeMismatch);
    let e = scope.set_variable(7, Variable::Char(Some('a'))).unwrap_err();
    assert_eq!(e.kind, ErrorKind::TypeMismatch);
    assert_eq!(scope.get_variable(7), Some(text_value("b")));
}

#[test]
fn assignment_reaches_the_frame_that_holds_the_slot() {
    let mut outer = Scope::new(None);
    outer.declare_variable(0, 1).unwrap();
    let mut inner = Scope::new(Some(outer));
    inner.set_or_create_variable(1, Variable::Int(Some(9))).unwrap();
    inner.set_or_create_variable(2, Variable::Int(Some(3))).unwrap();
    assert_eq!(inner.get_variable(2), Some(Variable::Int(Some(3))));
    let outer = inner.into_parent().unwrap();
    assert_eq!(outer.get_variable(1), Some(Variable::Int(Some(9))));
    assert_eq!(outer.get_variable(2), None);
}

// ---- expressions ----

#[test]
fn counts_select_expression_kinds() {
    assert_eq!(Expression::get_type(0), Some(ExpressionType::Variable));
    assert_eq!(Expression::get_type(1), Some(ExpressionType::Add));
    assert_eq!(Expression::get_type(2), Some(ExpressionType::Substract));
    assert_eq!(Expression::get_type(3), Some(ExpressionType::Multiply));
    assert_eq!(Expression::get_type(4), Some(ExpressionType::Divide));
    assert_eq!(Expression::get_type(5), Some(ExpressionType::LiteralValue));
    assert_eq!(Expression::get_type(6), Some(ExpressionType::EqualTo));
    assert_eq!(Expression::get_type(7), Some(ExpressionType::GreaterThan));
    assert_eq!(Expression::get_type(8), Some(ExpressionType::LessThan));
    assert_eq!(Expression::get_type(9), None);
}

#[test]
fn expressions_are_decoded() {
    let root = expression("e", &bin(ADD, int_of(1), int_of(2)));
    assert_eq!(Expression::new(&root).unwrap().expression_type(), ExpressionType::Add);
    let root = expression("e", &E::Var(3));
    assert_eq!(Expression::new(&root).unwrap().expression_type(), ExpressionType::Variable);
}

fn decode_failure(root: &Folder) -> Error {
    match Expression::new(root) {
        Ok(_) => panic!("a malformed expression was decoded"),
        Err(e) => e,
    }
}

#[test]
fn malformed_expressions() {
    let e = decode_failure(&tally("e", 0));
    assert_eq!((e.kind, e.path), (ErrorKind::Decode, Some("e".to_string())));
    // no such kind
    let e = decode_failure(&folder("e", vec![tally("e/0", 9), tally("e/1", 0)]));
    assert_eq!((e.kind, e.path), (ErrorKind::Decode, Some("e".to_string())));
    // a variable with an operand too many
    let e = decode_failure(&folder("e", vec![tally("e/0", 0), tally("e/1", 0), tally("e/2", 0)]));
    assert_eq!((e.kind, e.path), (ErrorKind::Decode, Some("e".to_string())));
    // a sum with one operand
    let e = decode_failure(&folder("e", vec![tally("e/0", 1), expression("e/1", &int_of(1))]));
    assert_eq!((e.kind, e.path), (ErrorKind::Decode, Some("e".to_string())));
    // the folder that selects the kind was not listed
    let unlisted = Folder { path: "e/0".to_string(), entries: None };
    let e = decode_failure(&folder("e", vec![unlisted, tally("e/1", 0)]));
    assert_eq!((e.kind, e.path), (ErrorKind::Decode, Some("e/0".to_string())));
}

#[test]
fn literal_bytes_come_back() {
    for values in [vec![], vec![5], vec![0x34, 0x12], vec![1, 2, 3], vec![0x78, 0x56, 0x34, 0x12], vec![0, 0, 0, 0x80], vec![255, 255, 255, 255]] {
        let value = value_of(&E::Lit(INT, values.clone())).unwrap();
        let Variable::Int(Some(i)) = value else { panic!("not an integer") };
        assert_eq!(i.to_le_bytes()[..values.len()], values[..]);
        assert!(i.to_le_bytes()[values.len()..].iter().all(|b| *b == 0));
        let value = value_of(&E::Lit(FLOAT, values.clone())).unwrap();
        let Variable::Float(Some(bits)) = value else { panic!("not a float") };
        assert_eq!(bits.to_le_bytes()[..values.len()], values[..]);
    }
}

#[test]
fn literals() {
    assert_eq!(value_of(&E::Lit(INT, vec![5])).unwrap(), Variable::Int(Some(5)));
    assert_eq!(value_of(&E::Lit(INT, vec![])).unwrap(), Variable::Int(Some(0)));
    assert_eq!(value_of(&E::Lit(INT, vec![0x78, 0x56, 0x34, 0x12])).unwrap(), Variable::Int(Some(0x12345678)));
    assert_eq!(value_of(&E::Lit(INT, vec![0xff, 0xff, 0xff, 0xff])).unwrap(), Variable::Int(Some(-1)));
    assert_eq!(value_of(&E::Lit(INT, vec![0, 0, 0, 0x80])).unwrap(), Variable::Int(Some(i32::MIN)));
    assert_eq!(value_of(&int_of(-77)).unwrap(), Variable::Int(Some(-77)));
    assert_eq!(value_of(&float_of(3.5)).unwrap(), float_value(3.5));
    assert_eq!(value_of(&E::Lit(FLOAT, vec![])).unwrap(), float_value(0.0));
    assert_eq!(value_of(&text_of("hello, world")).unwrap(), text_value("hello, world"));
    assert_eq!(value_of(&text_of("")).unwrap(), text_value(""));
    assert_eq!(value_of(&E::Lit(TEXT, vec![0xe9, 0x41])).unwrap(), text_value("\u{e9}A"));
    assert_eq!(value_of(&E::Lit(CHAR, vec![0x41])).unwrap(), Variable::Char(Some('A')));
    assert_eq!(value_of(&E::Lit(CHAR, vec![0xff])).unwrap(), Variable::Char(Some('\u{ff}')));
}

#[test]
fn a_literal_wants_a_type() {
    let e = value_of(&E::Lit(4, vec![2])).unwrap_err();
    assert_eq!((e.kind, e.path), (ErrorKind::Decode, Some("e/1".to_string())));
    let e = value_of(&E::Lit(6, vec![])).unwrap_err();
    assert_eq!((e.kind, e.path), (ErrorKind::Decode, Some("e/1".to_string())));
}

#[test]
fn a_literal_is_read_from_two_folders() {
    for values in [vec![], vec![5], vec![0x34, 0x12], vec![1, 2, 3], vec![0x78, 0x56, 0x34, 0x12], vec![0, 0, 0, 0x80], vec![255, 255, 255, 255]] {
        let read = read_literal(&tally("k", 0), &bytes("v", &values)).unwrap();
        let Variable::Int(Some(i)) = read else { panic!("not an integer") };
        assert_eq!(i.to_le_bytes()[..values.len()], values[..]);
        assert!(i.to_le_bytes()[values.len()..].iter().all(|b| *b == 0));
        let read = read_literal(&tally("k", 1), &bytes("v", &values)).unwrap();
        let Variable::Float(Some(bits)) = read else { panic!("not a float") };
        assert_eq!(bits.to_le_bytes()[..values.len()], values[..]);
        assert!(bits.to_le_bytes()[values.len()..].iter().all(|b| *b == 0));
    }
    assert_eq!(read_literal(&tally("k", 2), &bytes("v", b"hi")).unwrap(), text_value("hi"));
    assert_eq!(read_literal(&tally("k", 3), &bytes("v", b"x")).unwrap(), Variable::Char(Some('x')));
    let e = read_literal(&tally("k", 4), &bytes("v", &[1])).unwrap_err();
    assert_eq!((e.kind, e.path), (ErrorKind::Decode, Some("k".to_string())));
    let e = read_literal(&tally("k", 0), &bytes("v", &[1, 2, 3, 4, 5])).unwrap_err();
    assert_eq!((e.kind, e.path), (ErrorKind::Decode, Some("v".to_string())));
    let unlisted = Folder { path: "k".to_string(), entries: None };
    let e = read_literal(&unlisted, &bytes("v", &[1])).unwrap_err();
    assert_eq!((e.kind, e.path), (ErrorKind::Decode, Some("k".to_string())));
}

#[test]
fn literals_of_the_wrong_size() {
    let e = value_of(&E::Lit(INT, vec![1, 2, 3, 4, 5])).unwrap_err();
    assert_eq!((e.kind, e.path), (ErrorKind::Decode, Some("e/2".to_string())));
    let e = value_of(&E::Lit(FLOAT, vec![1, 2, 3, 4, 5])).unwrap_err();
    assert_eq!((e.kind, e.path), (ErrorKind::Decode, Some("e/2".to_string())));
    let e = value_of(&E::Lit(CHAR, vec![1, 2])).unwrap_err();
    assert_eq!((e.kind, e.path), (ErrorKind::Decode, Some("e/2".to_string())));
    let e = value_of(&E::Lit(CHAR, vec![])).unwrap_err();
    assert_eq!((e.kind, e.path), (ErrorKind::Decode, Some("e/2".to_string())));
    assert!(value_of(&E::Lit(TEXT, vec![1, 2, 3, 4, 5, 6])).is_ok());
}

#[test]
fn a_malformed_byte_in_a_literal() {
    let root = folder(
        "e",
        vec![
            tally("e/0", 5),
            tally("e/1", 0),
            folder("e/2", vec![byte("e/2/0", 1), tally("e/2/1", 3)]),
        ],
    );
    let e = Expression::new(&root).unwrap().execute(&Scope::new(None), &vec![]).unwrap_err();
    assert_eq!((e.kind, e.path), (ErrorKind::Decode, Some("e/2/1".to_string())));
}

#[test]
fn expressions_are_worked_out() {
    assert_eq!(value_of(&bin(ADD, int_of(2), int_of(3))).unwrap(), Variable::Int(Some(5)));
    assert_eq!(value_of(&bin(SUB, int_of(2), int_of(3))).unwrap(), Variable::Int(Some(-1)));
    assert_eq!(value_of(&bin(MUL, int_of(6), int_of(7))).unwrap(), Variable::Int(Some(42)));
    assert_eq!(
        value_of(&bin(ADD, bin(MUL, int_of(2), int_of(3)), bin(SUB, int_of(10), int_of(4)))).unwrap(),
        Variable::Int(Some(12))
    );
    assert_eq!(value_of(&bin(ADD, text_of("ab"), text_of("cd"))).unwrap(), text_value("abcd"));
    assert_eq!(value_of(&bin(ADD, float_of(1.5), int_of(2))).unwrap(), float_value(3.5));
    assert_eq!(
        value_of(&bin(MUL, bin(DIV, int_of(1), int_of(4)), bin(ADD, float_of(0.5), float_of(1.5)))).unwrap(),
        float_value(0.5)
    );
    assert_eq!(
        value_of(&bin(SUB, bin(DIV, int_of(9), int_of(2)), bin(DIV, int_of(1), int_of(2)))).unwrap(),
        float_value(4.0)
    );
}

#[test]
fn comparisons_come_to_one_or_nought() {
    let one = Variable::Int(Some(1));
    let nought = Variable::Int(Some(0));
    assert_eq!(value_of(&bin(EQ, int_of(2), int_of(2))).unwrap(), one);
    assert_eq!(value_of(&bin(EQ, int_of(2), int_of(3))).unwrap(), nought);
    assert_eq!(value_of(&bin(GT, int_of(3), int_of(2))).unwrap(), one);
    assert_eq!(value_of(&bin(GT, int_of(2), int_of(3))).unwrap(), nought);
    assert_eq!(value_of(&bin(LT, int_of(2), int_of(3))).unwrap(), one);
    assert_eq!(value_of(&bin(LT, int_of(3), int_of(2))).unwrap(), nought);
    assert_eq!(value_of(&bin(EQ, text_of("a"), text_of("a"))).unwrap(), one);
    assert_eq!(value_of(&bin(EQ, int_of(1), float_of(1.0))).unwrap(), nought);
    assert_eq!(value_of(&bin(LT, int_of(100), float_of(1.0))).unwrap(), one);
    assert_eq!(value_of(&bin(GT, text_of("a"), float_of(1.0))).unwrap(), one);
    assert_eq!(value_of(&bin(LT, bin(DIV, int_of(1), int_of(2)), float_of(0.75))).unwrap(), one);
    assert_eq!(value_of(&bin(EQ, bin(DIV, int_of(3), int_of(4)), float_of(0.75))).unwrap(), one);
}

#[test]
fn arithmetic_is_asked_for_in_order() {
    let root = expression("e", &bin(ADD, bin(DIV, int_of(1), int_of(4)), bin(MUL, float_of(2.0), int_of(3))));
    let expression = Expression::new(&root).unwrap();
    let scope = Scope::new(None);
    let first = FloatTask { operator: Operator::Divide, left: Number::Int(1), right: Number::Int(4) };
    let second = FloatTask {
        operator: Operator::Multiply,
        left: Number::Float(2.0f32.to_bits()),
        right: Number::Int(3),
    };
    let third = FloatTask {
        operator: Operator::Add,
        left: Number::Float(0.25f32.to_bits()),
        right: Number::Float(6.0f32.to_bits()),
    };
    let mut answers = vec![];
    for task in [first, second, third] {
        match expression.execute(&scope, &answers).unwrap() {
            Outcome::Float(asked) => assert_eq!(asked, task),
            Outcome::Value(_) => panic!("no arithmetic was asked for"),
        }
        answers.push(compute(task));
    }
    match expression.execute(&scope, &answers).unwrap() {
        Outcome::Value(value) => assert_eq!(value, float_value(6.25)),
        Outcome::Float(_) => panic!("too much arithmetic was asked for"),
    }
}

#[test]
fn failures_in_expressions_name_the_folder() {
    let e = value_of(&bin(ADD, int_of(1), text_of("a"))).unwrap_err();
    assert_eq!((e.kind, e.path, e.slot), (ErrorKind::TypeMismatch, Some("e".to_string()), None));
    let e = value_of(&bin(ADD, int_of(1), bin(MUL, text_of("a"), int_of(2)))).unwrap_err();
    assert_eq!(
        (e.kind, e.path, e.slot),
        (ErrorKind::UnsupportedOperation, Some("e/2".to_string()), None)
    );
}

#[test]
fn variables_are_read() {
    let mut scope = Scope::new(None);
    scope.set_or_create_variable(2, Variable::Int(Some(40))).unwrap();
    scope.declare_variable(0, 3).unwrap();
    assert_eq!(value_in(&scope, &E::Var(2)).unwrap(), Variable::Int(Some(40)));
    assert_eq!(value_in(&scope, &bin(ADD, E::Var(2), int_of(2))).unwrap(), Variable::Int(Some(42)));
    let e = value_in(&scope, &E::Var(3)).unwrap_err();
    assert_eq!(
        (e.kind, e.path, e.slot),
        (ErrorKind::UninitializedUse, Some("e/1".to_string()), Some(3))
    );
    let e = value_in(&scope, &E::Var(4)).unwrap_err();
    assert_eq!(
        (e.kind, e.path, e.slot),
        (ErrorKind::UndeclaredVariable, Some("e/1".to_string()), Some(4))
    );
    let e = value_in(&scope, &bin(ADD, int_of(1), E::Var(3))).unwrap_err();
    assert_eq!(e.kind, ErrorKind::UninitializedUse);
}

// ---- commands ----

#[test]
fn counts_select_command_kinds() {
    assert_eq!(Command::get_type(0), Some(CommandType::If));
    assert_eq!(Command::get_type(1), Some(CommandType::While));
    assert_eq!(Command::get_type(2), Some(CommandType::Declare));
    assert_eq!(Command::get_type(3), Some(CommandType::Let));
    assert_eq!(Command::get_type(4), Some(CommandType::Print));
    assert_eq!(Command::get_type(5), Some(CommandType::Input));
    assert_eq!(Command::get_type(6), None);
}

fn command_failure(root: &Folder) -> Error {
    match Command::new(root) {
        Ok(_) => panic!("a malformed command was decoded"),
        Err(e) => e,
    }
}

#[test]
fn malformed_commands() {
    let e = command_failure(&tally("c", 0));
    assert_eq!((e.kind, e.path), (ErrorKind::Decode, Some("c".to_string())));
    let e = command_failure(&folder("c", vec![tally("c/0", 6), tally("c/1", 0)]));
    assert_eq!((e.kind, e.path), (ErrorKind::Decode, Some("c/0".to_string())));
    // print with two operands
    let e = command_failure(&folder("c", vec![tally("c/0", 4), tally("c/1", 0), tally("c/2", 0)]));
    assert_eq!((e.kind, e.path), (ErrorKind::Decode, Some("c".to_string())));
    // declare with one operand
    let e = command_failure(&folder("c", vec![tally("c/0", 2), tally("c/1", 0)]));
    assert_eq!((e.kind, e.path), (ErrorKind::Decode, Some("c".to_string())));
}

#[test]
fn commands_say_what_they_need() {
    let mut scope = Scope::new(None);
    let root = command("c", &C::Input(1));
    let input = Command::new(&root).unwrap();
    assert_eq!(input.command_type(), CommandType::Input);
    assert!(matches!(input.run(&mut scope, &vec![], None).unwrap(), Effect::Read));
    assert_eq!(scope.get_variable(1), None);
    assert!(matches!(input.run(&mut scope, &vec![], Some(line("12"))).unwrap(), Effect::Advance));
    assert_eq!(scope.get_variable(1), Some(Variable::Int(Some(12))));

    let root = command("c", &C::Print(bin(DIV, E::Var(1), int_of(8))));
    let print = Command::new(&root).unwrap();
    let task = match print.run(&mut scope, &vec![], None).unwrap() {
        Effect::Compute(task) => task,
        _ => panic!("no arithmetic was asked for"),
    };
    assert_eq!(task, FloatTask { operator: Operator::Divide, left: Number::Int(12), right: Number::Int(8) });
    match print.run(&mut scope, &vec![compute(task)], None).unwrap() {
        Effect::Write(piece) => assert_eq!(show(piece), "1.5"),
        _ => panic!("nothing was written"),
    }

    let root = command("c", &C::While(E::Var(1), vec![]));
    let repeat = Command::new(&root).unwrap();
    match repeat.run(&mut scope, &vec![], None).unwrap() {
        Effect::Enter { body, again } => {
            assert_eq!(body.path, "c/2");
            assert!(again);
        }
        _ => panic!("the body was not entered"),
    }
    let root = command("c", &C::If(E::Var(1), vec![]));
    let branch = Command::new(&root).unwrap();
    match branch.run(&mut scope, &vec![], None).unwrap() {
        Effect::Enter { body, again } => {
            assert_eq!(body.path, "c/2");
            assert!(!again);
        }
        _ => panic!("the body was not entered"),
    }
    let root = command("c", &C::If(int_of(0), vec![]));
    let branch = Command::new(&root).unwrap();
    assert!(matches!(branch.run(&mut scope, &vec![], None).unwrap(), Effect::Advance));
}

#[test]
fn input_is_read_as_the_first_type_that_fits() {
    assert_eq!(Command::get_input(line("42")), Variable::Int(Some(42)));
    assert_eq!(Command::get_input(line("-42")), Variable::Int(Some(-42)));
    assert_eq!(Command::get_input(line("+7")), Variable::Int(Some(7)));
    assert_eq!(Command::get_input(line("007")), Variable::Int(Some(7)));
    assert_eq!(Command::get_input(line("2147483647")), Variable::Int(Some(i32::MAX)));
    assert_eq!(Command::get_input(line("-2147483648")), Variable::Int(Some(i32::MIN)));
    assert_eq!(Command::get_input(line("2147483648")), float_value(2147483648.0));
    assert_eq!(Command::get_input(line("-2147483649")), float_value(-2147483649.0));
    assert_eq!(Command::get_input(line("99999999999999999999999")), float_value(1e23));
    assert_eq!(Command::get_input(line("3.5")), float_value(3.5));
    assert_eq!(Command::get_input(line("1e3")), float_value(1000.0));
    assert_eq!(Command::get_input(line("x")), Variable::Char(Some('x')));
    assert_eq!(Command::get_input(line("-")), Variable::Char(Some('-')));
    assert_eq!(Command::get_input(line("+")), Variable::Char(Some('+')));
    assert_eq!(Command::get_input(line("\u{e9}")), Variable::Char(Some('\u{e9}')));
    assert_eq!(Command::get_input(line("hello")), text_value("hello"));
    assert_eq!(Command::get_input(line("")), text_value(""));
    assert_eq!(Command::get_input(line("--1")), text_value("--1"));
    assert_eq!(Command::get_input(line("1 2")), text_value("1 2"));
    assert_eq!(Command::get_input(line("12a")), text_value("12a"));
    assert_eq!(Command::get_input(Line { text: "7".to_string(), float: None }), Variable::Int(Some(7)));
    assert_eq!(Command::get_input(Line { text: "ab".to_string(), float: None }), text_value("ab"));
}

// ---- whole programs ----

#[test]
fn a_declared_and_assigned_slot_is_printed() {
    let commands = [C::Declare(INT, 0), C::Let(0, E::Lit(INT, vec![5])), C::Print(E::Var(0))];
    assert_eq!(output(&commands, &[]), "5");
}

#[test]
fn an_empty_text_is_not_true() {
    let commands = [C::Let(1, text_of("")), C::If(E::Var(1), vec![C::Print(int_of(1))])];
    assert_eq!(output(&commands, &[]), "");
    let commands = [C::Let(1, text_of("a")), C::If(E::Var(1), vec![C::Print(int_of(1))])];
    assert_eq!(output(&commands, &[]), "1");
}

#[test]
fn a_loop_can_declare_a_slot_each_time_round() {
    let commands = [
        C::Let(0, int_of(5)),
        C::While(
            E::Var(0),
            vec![C::Declare(INT, 9), C::Let(9, E::Var(0)), C::Print(E::Var(9)), C::Let(0, bin(SUB, E::Var(0), int_of(1)))],
        ),
        C::Print(text_of("!")),
    ];
    assert_eq!(run(&program(&commands), &[]).unwrap(), vec!["5", "4", "3", "2", "1", "!"]);
}

#[test]
fn a_slot_declared_in_a_block_is_gone_after_it() {
    let commands = [C::If(int_of(1), vec![C::Declare(INT, 3), C::Let(3, int_of(1))]), C::Print(E::Var(3))];
    let e = failure(&commands);
    assert_eq!((e.kind, e.slot), (ErrorKind::UndeclaredVariable, Some(3)));
}

#[test]
fn a_slot_cannot_be_declared_twice_in_a_block() {
    let e = failure(&[C::Declare(INT, 0), C::Declare(INT, 0)]);
    assert_eq!((e.kind, e.slot), (ErrorKind::DuplicateDeclaration, Some(0)));
    let e = failure(&[C::Declare(INT, 0), C::Declare(FLOAT, 0)]);
    assert_eq!(e.kind, ErrorKind::DuplicateDeclaration);
    let commands = [C::Declare(INT, 0), C::If(int_of(1), vec![C::Declare(FLOAT, 0), C::Print(E::Var(0))])];
    let e = failure(&commands);
    assert_eq!(e.kind, ErrorKind::UninitializedUse);
    let commands = [
        C::Declare(INT, 0),
        C::If(int_of(1), vec![C::Declare(FLOAT, 0), C::Let(0, float_of(1.5)), C::Print(E::Var(0))]),
        C::Let(0, int_of(2)),
        C::Print(E::Var(0)),
    ];
    assert_eq!(output(&commands, &[]), "1.52");
}

#[test]
fn a_text_is_not_assigned_to_an_integer() {
    let e = failure(&[C::Declare(INT, 0), C::Let(0, text_of("a"))]);
    assert_eq!((e.kind, e.slot), (ErrorKind::TypeMismatch, Some(0)));
    let e = failure(&[C::Let(4, int_of(1)), C::Let(4, int_of(2)), C::Let(4, text_of("a"))]);
    assert_eq!((e.kind, e.slot), (ErrorKind::TypeMismatch, Some(4)));
    assert_eq!(output(&[C::Let(4, int_of(1)), C::Let(4, int_of(2)), C::Print(E::Var(4))], &[]), "2");
}

#[test]
fn unset_and_undeclared_slots_are_not_read() {
    let e = failure(&[C::Declare(INT, 0), C::Print(E::Var(0))]);
    assert_eq!((e.kind, e.slot), (ErrorKind::UninitializedUse, Some(0)));
    assert_eq!(e.path, Some("prog/1/1/1".to_string()));
    let e = failure(&[C::Declare(INT, 0), C::Let(1, bin(ADD, E::Var(0), int_of(1)))]);
    assert_eq!((e.kind, e.slot), (ErrorKind::UninitializedUse, Some(0)));
    let e = failure(&[C::Print(E::Var(0))]);
    assert_eq!((e.kind, e.slot), (ErrorKind::UndeclaredVariable, Some(0)));
    let e = failure(&[C::Print(E::Var(1))]);
    assert_eq!((e.kind, e.slot), (ErrorKind::UndeclaredVariable, Some(1)));
}

#[test]
fn division_is_printed_as_a_float() {
    assert_eq!(output(&[C::Print(bin(DIV, int_of(7), int_of(2)))], &[]), "3.5");
    assert_eq!(output(&[C::Print(bin(DIV, int_of(4), int_of(2)))], &[]), "2");
    assert_eq!(output(&[C::Let(0, bin(DIV, int_of(4), int_of(2))), C::Let(0, float_of(0.5)), C::Print(E::Var(0))], &[]), "0.5");
    let e = failure(&[C::Let(0, bin(DIV, int_of(4), int_of(2))), C::Let(0, int_of(2))]);
    assert_eq!(e.kind, ErrorKind::TypeMismatch);
}

#[test]
fn what_was_written_before_a_failure_stays_written() {
    let root = program(&[C::Print(int_of(1)), C::Print(E::Var(0)), C::Print(int_of(2))]);
    let mut machine = Machine::new(&root).unwrap();
    let mut written = vec![];
    let mut failed = None;
    for _ in 0..10 {
        let (after, action) = machine.step(Event::Nothing);
        machine = after;
        match action {
            Action::Write(piece) => written.push(show(piece)),
            Action::Fail(e) => failed = Some(e),
            _ => {}
        }
    }
    assert_eq!(written, vec!["1"]);
    assert_eq!(failed.unwrap().kind, ErrorKind::UndeclaredVariable);
    assert!(machine.is_over());
}

#[test]
fn a_malformed_command_that_is_never_reached_does_no_harm() {
    let broken = tally("prog/0/2/0", 0);
    let skipped = folder(
        "prog/0",
        vec![tally("prog/0/0", 0), expression("prog/0/1", &int_of(0)), folder("prog/0/2", vec![broken])],
    );
    let root = folder("prog", vec![skipped, command("prog/1", &C::Print(int_of(3)))]);
    assert_eq!(run(&root, &[]).unwrap(), vec!["3"]);
}

#[test]
fn a_malformed_command_fails_when_it_is_reached() {
    let broken = tally("prog/1", 0);
    let root = folder("prog", vec![command("prog/0", &C::Print(int_of(3))), broken]);
    let e = run(&root, &[]).unwrap_err();
    assert_eq!((e.kind, e.path), (ErrorKind::Decode, Some("prog/1".to_string())));
    let unlisted = Folder { path: "nowhere".to_string(), entries: None };
    let e = run(&unlisted, &[]).unwrap_err();
    assert_eq!((e.kind, e.path), (ErrorKind::Decode, Some("nowhere".to_string())));
}

#[test]
fn an_empty_program_ends_at_once() {
    assert_eq!(output(&[], &[]), "");
}

#[test]
fn input_is_assigned() {
    let commands = [C::Input(0), C::Input(1), C::Print(bin(ADD, E::Var(0), E::Var(1)))];
    assert_eq!(output(&commands, &["40", "2"]), "42");
    assert_eq!(output(&commands, &["1.5", "2"]), "3.5");
    assert_eq!(output(&commands, &["ab", "cd"]), "abcd");
    let commands = [C::Declare(INT, 0), C::Input(0)];
    assert_eq!(run(&program(&commands), &["x"]).unwrap_err().kind, ErrorKind::TypeMismatch);
    assert_eq!(run(&program(&commands), &["5"]).unwrap(), Vec::<String>::new());
}

#[test]
fn an_answer_that_was_not_asked_for_is_ignored() {
    let root = program(&[C::Print(bin(DIV, int_of(1), int_of(2)))]);
    let machine = Machine::new(&root).unwrap();
    let (machine, action) = machine.step(Event::Float(7.0f32.to_bits()));
    let Action::Compute(task) = action else { panic!("no arithmetic was asked for") };
    let (machine, action) = machine.step(Event::Line(line("9")));
    assert!(matches!(action, Action::Compute(_)));
    let (machine, action) = machine.step(Event::Float(compute(task)));
    let Action::Write(piece) = action else { panic!("nothing was written") };
    assert_eq!(show(piece), "0.5");
    let (machine, action) = machine.step(Event::Nothing);
    assert!(matches!(action, Action::Done));
    let (_, action) = machine.step(Event::Nothing);
    assert!(matches!(action, Action::Done));
}

#[test]
fn nested_loops() {
    let commands = [
        C::Let(0, int_of(3)),
        C::While(
            E::Var(0),
            vec![
                C::Let(1, E::Var(0)),
                C::While(
                    bin(GT, E::Var(1), int_of(0)),
                    vec![C::Print(E::Var(1)), C::Let(1, bin(SUB, E::Var(1), int_of(1)))],
                ),
                C::Print(text_of(";")),
                C::Let(0, bin(SUB, E::Var(0), int_of(1))),
            ],
        ),
    ];
    assert_eq!(output(&commands, &[]), "321;21;1;");
}

#[test]
fn a_declaration_names_the_folder_that_selects_no_type() {
    let e = failure(&[C::Declare(7, 0)]);
    assert_eq!((e.kind, e.path, e.slot), (ErrorKind::Decode, Some("prog/0/1".to_string()), None));
    let e = translate(&program(&[C::Declare(4, 2)])).unwrap_err();
    assert_eq!((e.kind, e.path, e.slot), (ErrorKind::Decode, Some("prog/0/1".to_string()), None));
    // a slot that is there already is found out first
    let e = failure(&[C::Declare(INT, 0), C::Declare(7, 0)]);
    assert_eq!((e.kind, e.path, e.slot), (ErrorKind::DuplicateDeclaration, None, Some(0)));
}

#[test]
fn each_error_kind_has_its_cause() {
    assert_eq!(failure(&[C::Print(E::Lit(CHAR, vec![]))]).kind, ErrorKind::Decode);
    assert_eq!(failure(&[C::Declare(7, 0)]).kind, ErrorKind::Decode);
    assert_eq!(failure(&[C::Declare(INT, 1), C::Declare(TEXT, 1)]).kind, ErrorKind::DuplicateDeclaration);
    assert_eq!(failure(&[C::Let(0, E::Var(1))]).kind, ErrorKind::UndeclaredVariable);
    assert_eq!(failure(&[C::Let(0, int_of(1)), C::Let(0, float_of(1.0))]).kind, ErrorKind::TypeMismatch);
    assert_eq!(failure(&[C::Print(bin(ADD, int_of(1), text_of("a")))]).kind, ErrorKind::TypeMismatch);
    assert_eq!(failure(&[C::Declare(CHAR, 1), C::If(E::Var(1), vec![])]).kind, ErrorKind::UninitializedUse);
    assert_eq!(failure(&[C::Print(bin(MUL, text_of("a"), text_of("b")))]).kind, ErrorKind::UnsupportedOperation);
}

// ---- numbers as text ----

#[test]
fn numbers_are_written_in_decimal() {
    assert_eq!(decimal_text(0), "0");
    assert_eq!(decimal_text(7), "7");
    assert_eq!(decimal_text(10), "10");
    assert_eq!(decimal_text(1234567890), "1234567890");
    assert_eq!(decimal_text(u64::MAX), "18446744073709551615");
    assert_eq!(integer_text(0), "0");
    assert_eq!(integer_text(-1), "-1");
    assert_eq!(integer_text(305), "305");
    assert_eq!(integer_text(i32::MIN), "-2147483648");
    assert_eq!(integer_text(i32::MAX), "2147483647");
}

#[test]
fn integers_are_read_from_text() {
    assert_eq!(parse_int("0"), Some(0));
    assert_eq!(parse_int("12"), Some(12));
    assert_eq!(parse_int("-12"), Some(-12));
    assert_eq!(parse_int("+12"), Some(12));
    assert_eq!(parse_int("-0"), Some(0));
    assert_eq!(parse_int("000000000000000000012"), Some(12));
    assert_eq!(parse_int("2147483647"), Some(i32::MAX));
    assert_eq!(parse_int("2147483648"), None);
    assert_eq!(parse_int("-2147483648"), Some(i32::MIN));
    assert_eq!(parse_int("-2147483649"), None);
    assert_eq!(parse_int("99999999999999999999999999"), None);
    assert_eq!(parse_int(""), None);
    assert_eq!(parse_int("-"), None);
    assert_eq!(parse_int("+"), None);
    assert_eq!(parse_int("+-1"), None);
    assert_eq!(parse_int("1.5"), None);
    assert_eq!(parse_int(" 1"), None);
    assert_eq!(parse_int("1 "), None);
    assert_eq!(parse_int("12a"), None);
    assert_eq!(parse_int("\u{663}"), None);
    for text in ["0", "-7", "+7", "123456", "2147483647", "-2147483648", "2147483648", "x", "", "-", "1e3"] {
        assert_eq!(parse_int(text), text.parse::<i32>().ok());
    }
}

// ---- turning programs into text ----

fn written(tokens: &[Token]) -> String {
    let mut text = String::new();
    for token in tokens {
        match token {
            Token::Char(c) => text.push(*c),
            Token::Float(bits) => text.push_str(&format!("{}", f32::from_bits(*bits))),
        }
    }
    text
}

/// The text of one command, turned into text after those before it.
fn texts(commands: &[C]) -> Vec<String> {
    let root = program(commands);
    let mut scope = Scope::new(None);
    let mut found = vec![];
    for folder in sorted_subfolders(&root).unwrap() {
        let command = Command::new(folder).unwrap();
        let (after, translation) = command.transpile(scope).unwrap();
        scope = after;
        found.push(written(&translation.text));
    }
    found
}

fn expression_text(scope: &Scope, e: &E) -> Result<String, Error> {
    let root = expression("e", e);
    let tokens = Expression::new(&root)?.transpile(scope)?;
    Ok(written(&tokens))
}

const PRINTED: &str = ");\nstd::io::stdout().flush().unwrap();\n";

#[test]
fn declarations_become_bindings() {
    assert_eq!(
        texts(&[C::Declare(INT, 0), C::Declare(FLOAT, 1), C::Declare(TEXT, 12), C::Declare(CHAR, 3)]),
        vec!["let mut var_0: i32;", "let mut var_1: f32;", "let mut var_12: String;", "let mut var_3: char;"]
    );
}

#[test]
fn the_first_assignment_introduces_the_name() {
    assert_eq!(
        texts(&[C::Let(1, int_of(5)), C::Let(1, int_of(-6)), C::Declare(INT, 2), C::Let(2, int_of(7))]),
        vec!["let mut var_1 = 5;", "var_1 = -6;", "let mut var_2: i32;", "var_2 = 7;"]
    );
}

#[test]
fn literals_become_text() {
    let scope = Scope::new(None);
    assert_eq!(expression_text(&scope, &int_of(42)).unwrap(), "42");
    assert_eq!(expression_text(&scope, &int_of(-1)).unwrap(), "-1");
    assert_eq!(expression_text(&scope, &float_of(3.5)).unwrap(), "3.5 as f32");
    assert_eq!(expression_text(&scope, &float_of(2.0)).unwrap(), "2 as f32");
    assert_eq!(expression_text(&scope, &text_of("hi")).unwrap(), "\"hi\".to_owned()");
    assert_eq!(expression_text(&scope, &text_of("")).unwrap(), "String::new()");
    assert_eq!(expression_text(&scope, &E::Lit(CHAR, vec![0x41])).unwrap(), "'A'");
}

#[test]
fn operands_are_put_in_brackets() {
    let mut scope = Scope::new(None);
    scope.set_or_create_variable(0, Variable::Int(Some(1))).unwrap();
    scope.set_or_create_variable(1, Variable::Int(Some(1))).unwrap();
    assert_eq!(expression_text(&scope, &E::Var(0)).unwrap(), "var_0");
    assert_eq!(expression_text(&scope, &bin(ADD, E::Var(0), int_of(2))).unwrap(), "var_0 + 2");
    assert_eq!(expression_text(&scope, &bin(SUB, E::Var(0), E::Var(1))).unwrap(), "var_0 - var_1");
    assert_eq!(expression_text(&scope, &bin(MUL, int_of(2), int_of(3))).unwrap(), "2 * 3");
    assert_eq!(expression_text(&scope, &bin(DIV, int_of(2), int_of(3))).unwrap(), "2 / 3");
    assert_eq!(expression_text(&scope, &bin(EQ, int_of(2), int_of(3))).unwrap(), "2 == 3");
    assert_eq!(expression_text(&scope, &bin(GT, int_of(2), int_of(3))).unwrap(), "2 > 3");
    assert_eq!(expression_text(&scope, &bin(LT, int_of(2), int_of(3))).unwrap(), "2 < 3");
    assert_eq!(
        expression_text(&scope, &bin(ADD, bin(MUL, E::Var(0), E::Var(1)), int_of(4))).unwrap(),
        "(var_0 * var_1) + 4"
    );
    assert_eq!(
        expression_text(&scope, &bin(SUB, int_of(4), bin(DIV, float_of(1.5), E::Var(1)))).unwrap(),
        "4 - (1.5 as f32 / var_1)"
    );
    assert_eq!(
        expression_text(&scope, &bin(LT, bin(ADD, int_of(1), int_of(2)), bin(ADD, int_of(3), int_of(4)))).unwrap(),
        "(1 + 2) < (3 + 4)"
    );
}

#[test]
fn a_text_on_the_right_of_a_sum_is_lent() {
    let mut scope = Scope::new(None);
    scope.set_or_create_variable(0, text_value("a")).unwrap();
    scope.set_or_create_variable(1, text_value("b")).unwrap();
    assert_eq!(expression_text(&scope, &bin(ADD, E::Var(0), E::Var(1))).unwrap(), "var_0 + &var_1");
    assert_eq!(
        expression_text(&scope, &bin(ADD, E::Var(0), text_of("c"))).unwrap(),
        "var_0 + &\"c\".to_owned()"
    );
    assert_eq!(
        expression_text(&scope, &bin(ADD, E::Var(0), bin(ADD, E::Var(1), E::Var(0)))).unwrap(),
        "var_0 + (var_1 + &var_0)"
    );
    assert_eq!(expression_text(&scope, &bin(EQ, E::Var(0), E::Var(1))).unwrap(), "var_0 == var_1");
}

#[test]
fn variables_in_the_text_must_be_set() {
    let mut scope = Scope::new(None);
    scope.declare_variable(0, 0).unwrap();
    let e = expression_text(&scope, &E::Var(0)).unwrap_err();
    assert_eq!((e.kind, e.slot), (ErrorKind::UninitializedUse, Some(0)));
    let e = expression_text(&scope, &bin(ADD, int_of(1), E::Var(5))).unwrap_err();
    assert_eq!((e.kind, e.slot), (ErrorKind::UndeclaredVariable, Some(5)));
    // the left operand is turned into text before the right one is decoded
    let root = folder("e", vec![tally("e/0", 1), expression("e/1", &E::Var(5)), tally("e/2", 0)]);
    let e = Expression::new(&root).unwrap().transpile(&scope).unwrap_err();
    assert_eq!(e.kind, ErrorKind::UndeclaredVariable);
    // when it is worked out, both are decoded first
    let e = Expression::new(&root).unwrap().execute(&scope, &vec![]).unwrap_err();
    assert_eq!((e.kind, e.path), (ErrorKind::Decode, Some("e/2".to_string())));
}

#[test]
fn a_text_variable_is_copied() {
    assert_eq!(
        texts(&[C::Let(2, text_of("hi")), C::Let(3, E::Var(2)), C::Let(3, bin(ADD, E::Var(2), E::Var(3)))]),
        vec!["let mut var_2 = \"hi\".to_owned();", "let mut var_3 = var_2.clone();", "var_3 = var_2 + &var_3;"]
    );
    assert_eq!(texts(&[C::Let(2, int_of(1)), C::Let(3, E::Var(2))])[1], "let mut var_3 = var_2;");
}

#[test]
fn printing_becomes_a_print_and_a_flush() {
    assert_eq!(texts(&[C::Print(int_of(1))]), vec![format!("print!(\"{{}}\", 1{PRINTED}")]);
    // the types of what is printed are not looked at
    assert_eq!(
        texts(&[C::Print(bin(ADD, int_of(1), text_of("a")))]),
        vec![format!("print!(\"{{}}\", 1 + &\"a\".to_owned(){PRINTED}")]
    );
}

#[test]
fn input_becomes_a_read() {
    assert_eq!(
        texts(&[C::Input(4), C::Input(4)]),
        vec![
            "let mut var_4 = String::new();\nstd::io::stdin().read_line(&mut var_4).unwrap();\n",
            "std::io::stdin().read_line(&mut var_4).unwrap();\n",
        ]
    );
    assert_eq!(texts(&[C::Input(4), C::Let(5, E::Var(4))])[1], "let mut var_5 = var_4.clone();");
}

#[test]
fn conditions_are_tested_by_their_type() {
    let test = |condition: E| texts(&[C::Let(0, int_of(1)), C::If(condition, vec![])])[1].clone();
    assert_eq!(test(E::Var(0)), "\nif var_0 != 0 {\n}");
    assert_eq!(test(int_of(3)), "\nif 3 != 0 {\n}");
    assert_eq!(test(bin(ADD, E::Var(0), int_of(1))), "\nif var_0 + 1 != 0 {\n}");
    assert_eq!(test(float_of(0.5)), "\nif 0.5 as f32 != 0.0 {\n}");
    assert_eq!(test(bin(DIV, E::Var(0), int_of(2))), "\nif var_0 / 2 != 0.0 {\n}");
    assert_eq!(test(E::Lit(CHAR, vec![0x41])), "\nif 'A' != '\\0' {\n}");
    assert_eq!(test(text_of("a")), "\nif !\"a\".to_owned().is_empty() {\n}");
    assert_eq!(
        test(bin(ADD, text_of("a"), text_of("b"))),
        "\nif !(\"a\".to_owned() + &\"b\".to_owned()).is_empty() {\n}"
    );
    assert_eq!(test(bin(EQ, E::Var(0), int_of(1))), "\nif var_0 == 1 {\n}");
    assert_eq!(test(bin(GT, E::Var(0), int_of(1))), "\nif var_0 > 1 {\n}");
    assert_eq!(test(bin(LT, E::Var(0), int_of(1))), "\nif var_0 < 1 {\n}");
}

#[test]
fn a_body_is_moved_in() {
    let commands = [
        C::Let(0, int_of(3)),
        C::While(
            bin(GT, E::Var(0), int_of(0)),
            vec![C::Print(E::Var(0)), C::Let(0, bin(SUB, E::Var(0), int_of(1)))],
        ),
    ];
    assert_eq!(
        texts(&commands)[1],
        "\nwhile var_0 > 0 {\n\tprint!(\"{}\", var_0);\n\tstd::io::stdout().flush().unwrap();\n\t\n\tvar_0 = var_0 - 1;\n}"
    );
    let commands = [C::If(int_of(0), vec![C::If(int_of(1), vec![C::Let(1, int_of(2))])])];
    assert_eq!(
        texts(&commands)[0],
        "\nif 0 != 0 {\n\t\n\tif 1 != 0 {\n\t\tlet mut var_1 = 2;\n\t}\n}"
    );
}

#[test]
fn a_body_is_turned_into_text_whatever_the_condition() {
    let commands = [C::If(int_of(0), vec![C::Let(1, int_of(2))]), C::Let(1, int_of(3))];
    assert_eq!(
        texts(&commands),
        vec!["\nif 0 != 0 {\n\tlet mut var_1 = 2;\n}", "let mut var_1 = 3;"]
    );
    // what a body assigns to a slot outside it is kept track of
    let commands = [
        C::Declare(TEXT, 0),
        C::While(int_of(0), vec![C::Let(0, text_of("a"))]),
        C::Let(1, E::Var(0)),
    ];
    assert_eq!(texts(&commands)[2], "let mut var_1 = var_0.clone();");
}

#[test]
fn a_whole_program_becomes_a_function() {
    let root = program(&[C::Declare(INT, 0), C::Let(0, E::Lit(INT, vec![5])), C::Print(E::Var(0))]);
    assert_eq!(
        written(&translate(&root).unwrap()),
        "use std::io::Write;\n\nfn main() {\n\tlet mut var_0: i32;\n\tvar_0 = 5;\n\tprint!(\"{}\", var_0);\n\tstd::io::stdout().flush().unwrap();\n\t\n}\n"
    );
    let root = program(&[C::Let(0, float_of(1.5))]);
    assert_eq!(written(&translate(&root).unwrap()), "fn main() {\n\tlet mut var_0 = 1.5 as f32;\n}\n");
    assert_eq!(written(&translate(&program(&[])).unwrap()), "fn main() {\n}\n");
    let root = program(&[C::If(int_of(0), vec![C::Print(int_of(1))])]);
    assert!(written(&translate(&root).unwrap()).starts_with("use std::io::Write;\n\nfn main() {\n"));
    // a text that spells the word does not print
    let root = program(&[C::Let(0, text_of("print"))]);
    assert!(written(&translate(&root).unwrap()).starts_with("fn main() {\n"));
}

#[test]
fn failures_when_turning_into_text() {
    let failed = |commands: &[C]| translate(&program(commands)).unwrap_err();
    assert_eq!(failed(&[C::Declare(INT, 0), C::Declare(INT, 0)]).kind, ErrorKind::DuplicateDeclaration);
    assert_eq!(failed(&[C::Declare(INT, 0), C::Let(0, text_of("a"))]).kind, ErrorKind::TypeMismatch);
    assert_eq!(failed(&[C::Declare(INT, 0), C::Input(0)]).kind, ErrorKind::TypeMismatch);
    assert_eq!(failed(&[C::Declare(INT, 0), C::Print(E::Var(0))]).kind, ErrorKind::UninitializedUse);
    assert_eq!(failed(&[C::Print(E::Var(0))]).kind, ErrorKind::UndeclaredVariable);
    assert_eq!(failed(&[C::Let(0, bin(MUL, text_of("a"), int_of(1)))]).kind, ErrorKind::UnsupportedOperation);
    assert_eq!(failed(&[C::If(bin(ADD, int_of(1), text_of("a")), vec![])]).kind, ErrorKind::TypeMismatch);
    assert_eq!(failed(&[C::If(int_of(0), vec![C::Print(E::Var(9))])]).kind, ErrorKind::UndeclaredVariable);
    // a slot of a body is gone after it
    let e = failed(&[C::If(int_of(1), vec![C::Declare(INT, 3), C::Let(3, int_of(1))]), C::Print(E::Var(3))]);
    assert_eq!((e.kind, e.slot), (ErrorKind::UndeclaredVariable, Some(3)));
    let unlisted = Folder { path: "nowhere".to_string(), entries: None };
    assert_eq!(translate(&unlisted).unwrap_err().kind, ErrorKind::Decode);
}

#[test]
fn the_text_has_the_types_that_running_has() {
    // a division makes a float of a slot, in the text as when it runs
    let commands = [C::Let(0, bin(DIV, int_of(4), int_of(2))), C::If(E::Var(0), vec![])];
    assert_eq!(texts(&commands), vec!["let mut var_0 = 4 / 2;", "\nif var_0 != 0.0 {\n}"]);
    assert_eq!(translate(&program(&[C::Let(0, bin(DIV, int_of(4), int_of(2))), C::Let(0, int_of(1))])).unwrap_err().kind, ErrorKind::TypeMismatch);
    assert_eq!(failure(&[C::Let(0, bin(DIV, int_of(4), int_of(2))), C::Let(0, int_of(1))]).kind, ErrorKind::TypeMismatch);
}
