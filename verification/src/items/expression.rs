use crate::items::variable::{
    combined, less_value, same_value, Computed, FloatTask, Number, Operator, Outcome, Type, Value,
    Variable,
};
use crate::scope::{lookup, Frame, Scope};
use crate::text::{int_text, integer_text, push_char};
use crate::transpile::{chars, push_all, push_slot, push_text, slot_name, Token};
use crate::utils::{
    byte_of, count_of, get_byte, input_error, lemma_sorted_entries_lie_deeper, malformed,
    sorted_entries, sorted_subfolders, subfolder_count, targets, Error, ErrorKind, Folder,
};
use vstd::prelude::*;

verus! {

/// The nine kinds of expressions.
#[derive(Hash, Debug, Clone, Copy, PartialEq, Eq, Structural)]
pub enum ExpressionType {
    Variable,
    Add,
    Substract,
    Multiply,
    Divide,
    LiteralValue,
    EqualTo,
    GreaterThan,
    LessThan,
}

impl ExpressionType {
    /// The kind that a number of sub-folders selects.
    pub open spec fn of_count(count: usize) -> Option<ExpressionType> {
        if count == 0 {
            Some(ExpressionType::Variable)
        } else if count == 1 {
            Some(ExpressionType::Add)
        } else if count == 2 {
            Some(ExpressionType::Substract)
        } else if count == 3 {
            Some(ExpressionType::Multiply)
        } else if count == 4 {
            Some(ExpressionType::Divide)
        } else if count == 5 {
            Some(ExpressionType::LiteralValue)
        } else if count == 6 {
            Some(ExpressionType::EqualTo)
        } else if count == 7 {
            Some(ExpressionType::GreaterThan)
        } else if count == 8 {
            Some(ExpressionType::LessThan)
        } else {
            None
        }
    }

    /// How many sub-folders an expression of this kind has: the one that
    /// selects the kind, and then the slot of a variable, or two operands.
    pub open spec fn size(self) -> nat {
        if self == ExpressionType::Variable {
            2
        } else {
            3
        }
    }

    /// The arithmetic operator of this kind, if it is one.
    pub open spec fn operator(self) -> Option<Operator> {
        match self {
            ExpressionType::Add => Some(Operator::Add),
            ExpressionType::Substract => Some(Operator::Subtract),
            ExpressionType::Multiply => Some(Operator::Multiply),
            ExpressionType::Divide => Some(Operator::Divide),
            _ => None,
        }
    }
}

/// An expression, decoded as far as its kind: its operands are still
/// folders.
pub struct Expression<'a> {
    expression_type: ExpressionType,
    /// the folder that was decoded
    folder: &'a Folder,
    /// its sub-folders, in order
    folders: Vec<&'a Folder>,
}

/// The kind of the expression that a folder holds, and its sub-folders in
/// order.
///
/// The first sub-folder selects the kind by the number of its own
/// sub-folders. The others are the operands, and there must be as many as
/// the kind asks for.
pub open spec fn decoded(folder: Folder) -> Result<(ExpressionType, Seq<Folder>), Error> {
    match sorted_entries(folder) {
        Err(e) => Err(e),
        Ok(parts) => {
            if parts.len() == 0 {
                Err(malformed(folder))
            } else {
                match count_of(parts[0]) {
                    Err(e) => Err(e),
                    Ok(count) => match ExpressionType::of_count(count) {
                        None => Err(malformed(folder)),
                        Some(kind) => {
                            if parts.len() == kind.size() {
                                Ok((kind, parts))
                            } else {
                                Err(malformed(folder))
                            }
                        },
                    },
                }
            }
        },
    }
}

/// The 32-bit word that up to four bytes make, the first byte being the
/// lowest. Bytes that are not there count as zero.
pub open spec fn word_of(bytes: Seq<u8>) -> nat
    decreases bytes.len(),
{
    if bytes.len() == 0 {
        0
    } else {
        bytes[0] as nat + 256 * word_of(bytes.drop_first())
    }
}

/// The first `count` bytes of a word, the lowest first.
pub open spec fn bytes_in(word: nat, count: nat) -> Seq<u8>
    decreases count,
{
    if count == 0 {
        Seq::empty()
    } else {
        seq![(word % 256) as u8] + bytes_in(word / 256, (count - 1) as nat)
    }
}

/// The integer that a word stands for in two's complement.
pub open spec fn signed(word: u32) -> i32 {
    if word < 0x8000_0000 {
        word as i32
    } else {
        (word - 0x1_0000_0000) as i32
    }
}

/// The word that stands for an integer in two's complement.
pub open spec fn unsigned(i: i32) -> u32 {
    if i >= 0 {
        i as u32
    } else {
        (i + 0x1_0000_0000) as u32
    }
}

/// The bytes that a row of folders stands for. The first folder that is
/// not a byte decides the failure.
pub open spec fn bytes_of(folders: Seq<Folder>) -> Result<Seq<u8>, Error>
    decreases folders.len(),
{
    if folders.len() == 0 {
        Ok(Seq::empty())
    } else {
        match bytes_of(folders.drop_last()) {
            Err(e) => Err(e),
            Ok(bytes) => match byte_of(folders.last()) {
                Err(e) => Err(e),
                Ok(byte) => Ok(bytes.push(byte)),
            },
        }
    }
}

/// Whether a literal of the given type can have so many bytes: a number
/// has at most four, a character exactly one, a text any number.
pub open spec fn fits(kind: Type, count: nat) -> bool {
    match kind {
        Type::Int => count <= 4,
        Type::Float => count <= 4,
        Type::Char => count == 1,
        Type::String => true,
    }
}

/// The value that the bytes of a literal stand for. An `Int` and a `Float`
/// are the word that the bytes make. A character is the code point with
/// the number of its byte, and a text has one such character for each of
/// its bytes.
pub open spec fn literal_value(kind: Type, bytes: Seq<u8>) -> Value {
    match kind {
        Type::Int => Value::Int(Some(signed(word_of(bytes) as u32))),
        Type::Float => Value::Float(Some(word_of(bytes) as u32)),
        Type::Char => Value::Char(Some(bytes[0] as char)),
        Type::String => Value::Text(Some(bytes.map_values(|byte: u8| byte as char))),
    }
}

/// The value of a literal: the first folder selects its type, by a number
/// of sub-folders from nought to three, and the second holds its bytes in
/// order.
pub open spec fn literal_of(kind: Folder, value: Folder) -> Result<Value, Error> {
    match count_of(kind) {
        Err(e) => Err(e),
        Ok(count) => match Type::of_count(count) {
            None => Err(malformed(kind)),
            Some(selected) => match sorted_entries(value) {
                Err(e) => Err(e),
                Ok(folders) => {
                    if !fits(selected, folders.len()) {
                        Err(malformed(value))
                    } else {
                        match bytes_of(folders) {
                            Err(e) => Err(e),
                            Ok(bytes) => Ok(literal_value(selected, bytes)),
                        }
                    }
                },
            },
        },
    }
}

/// The failure reported for a slot that an expression reads.
pub open spec fn read_fault(kind: ErrorKind, folder: Folder, slot: usize) -> Error {
    Error { kind, path: Some(folder.path), slot: Some(slot) }
}

/// The value of the variable whose slot the folder selects. The slot must
/// have been declared, and something must have been assigned to it.
pub open spec fn variable_of(folder: Folder, frames: Seq<Frame>) -> Result<Value, Error> {
    match count_of(folder) {
        Err(e) => Err(e),
        Ok(slot) => match lookup(frames, slot) {
            None => Err(read_fault(ErrorKind::UndeclaredVariable, folder, slot)),
            Some(value) => {
                if value.is_null() {
                    Err(read_fault(ErrorKind::UninitializedUse, folder, slot))
                } else {
                    Ok(value)
                }
            },
        },
    }
}

/// The integer that a comparison comes to.
pub open spec fn truth(holds: bool) -> Value {
    Value::Int(
        Some(
            if holds {
                1i32
            } else {
                0i32
            },
        ),
    )
}

/// What an expression with two operands makes of their values.
///
/// A comparison comes to one or nought. An arithmetic operator comes to a
/// value, or to single-precision arithmetic: its result is the next of the
/// answers that were not used yet, if there is one. If there is none, the
/// result is `assumed`, if that is given, and else it is asked for. A
/// failure names the folder of the expression. A kind that takes no
/// operands makes nothing of them: its folder is malformed.
pub open spec fn applied(
    folder: Folder,
    kind: ExpressionType,
    left: Value,
    right: Value,
    answers: Seq<u32>,
    used: nat,
    assumed: Option<u32>,
) -> Result<(Computed, nat), Error> {
    match kind.operator() {
        None => {
            if kind == ExpressionType::EqualTo {
                Ok((Computed::Value(truth(same_value(left, right))), used))
            } else if kind == ExpressionType::GreaterThan {
                Ok((Computed::Value(truth(less_value(right, left))), used))
            } else if kind == ExpressionType::LessThan {
                Ok((Computed::Value(truth(less_value(left, right))), used))
            } else {
                Err(malformed(folder))
            }
        },
        Some(operator) => match combined(operator, left, right) {
            Err(e) => Err(Error { kind: e.kind, path: Some(folder.path), slot: None }),
            Ok(Computed::Value(value)) => Ok((Computed::Value(value), used)),
            Ok(Computed::Float(task)) => {
                if used < answers.len() {
                    Ok((Computed::Value(Value::Float(Some(answers[used as int]))), used + 1))
                } else {
                    match assumed {
                        Some(bits) => Ok((Computed::Value(Value::Float(Some(bits))), used)),
                        None => Ok((Computed::Float(task), used)),
                    }
                }
            },
        },
    }
}

/// What the expression in a folder comes to, and how many of the answers
/// are used up by then.
///
/// `answers` holds the results of the single-precision arithmetic that was
/// asked for so far, in the order in which the expression needs them, and
/// `used` says how many of them an earlier part has taken. Where the next
/// answer is missing the expression comes to the arithmetic that is to be
/// done, unless a result is `assumed` for all such arithmetic. Both
/// operands are decoded before either is worked out, and the left one is
/// worked out first.
pub open spec fn evaluated(
    folder: Folder,
    frames: Seq<Frame>,
    answers: Seq<u32>,
    used: nat,
    assumed: Option<u32>,
) -> Result<(Computed, nat), Error>
    decreases folder,
{
    match decoded(folder) {
        Err(e) => Err(e),
        Ok((kind, parts)) => {
            if kind == ExpressionType::Variable {
                match variable_of(parts[1], frames) {
                    Err(e) => Err(e),
                    Ok(value) => Ok((Computed::Value(value), used)),
                }
            } else if kind == ExpressionType::LiteralValue {
                match literal_of(parts[1], parts[2]) {
                    Err(e) => Err(e),
                    Ok(value) => Ok((Computed::Value(value), used)),
                }
            } else {
                proof {
                    lemma_sorted_entries_lie_deeper(folder);
                }
                match decoded(parts[1]) {
                    Err(e) => Err(e),
                    Ok(_) => match decoded(parts[2]) {
                        Err(e) => Err(e),
                        Ok(_) => match evaluated(parts[1], frames, answers, used, assumed) {
                            Err(e) => Err(e),
                            Ok((Computed::Float(task), next)) => Ok((Computed::Float(task), next)),
                            Ok((Computed::Value(left), next)) => match evaluated(
                                parts[2],
                                frames,
                                answers,
                                next,
                                assumed,
                            ) {
                                Err(e) => Err(e),
                                Ok((Computed::Float(task), last)) => Ok(
                                    (Computed::Float(task), last),
                                ),
                                Ok((Computed::Value(right), last)) => applied(
                                    folder,
                                    kind,
                                    left,
                                    right,
                                    answers,
                                    last,
                                    assumed,
                                ),
                            },
                        },
                    },
                }
            }
        },
    }
}

/// What the expression in a folder comes to, given the results of the
/// single-precision arithmetic that it asked for so far.
pub open spec fn outcome_of(folder: Folder, frames: Seq<Frame>, answers: Seq<u32>) -> Result<
    Computed,
    Error,
> {
    match evaluated(folder, frames, answers, 0, None) {
        Err(e) => Err(e),
        Ok((computed, _)) => Ok(computed),
    }
}

/// The bits that stand for the result of arithmetic that is not carried
/// out.
pub const UNKNOWN: u32 = 0;

/// What the expression in a folder comes to when nought stands for the
/// result of all single-precision arithmetic. The value has the type, and
/// the expression fails with the failure, that it has with the true
/// results.
pub open spec fn settled(folder: Folder, frames: Seq<Frame>) -> Result<Value, Error> {
    match evaluated(folder, frames, Seq::empty(), 0, Some(UNKNOWN)) {
        Err(e) => Err(e),
        Ok((Computed::Value(value), _)) => Ok(value),
        Ok((Computed::Float(_), _)) => Ok(Value::Float(Some(UNKNOWN))),
    }
}

impl ExpressionType {
    /// Whether an expression of this kind has no expressions inside it.
    pub open spec fn is_leaf(self) -> bool {
        self == ExpressionType::Variable || self == ExpressionType::LiteralValue
    }

    /// The sign that stands for this kind between two operands.
    pub open spec fn sign(self) -> Seq<char> {
        match self {
            ExpressionType::Add => "+"@,
            ExpressionType::Substract => "-"@,
            ExpressionType::Multiply => "*"@,
            ExpressionType::Divide => "/"@,
            ExpressionType::GreaterThan => ">"@,
            ExpressionType::LessThan => "<"@,
            ExpressionType::EqualTo => "=="@,
            _ => ""@,
        }
    }
}

/// The text of a literal: a character between single quotes, an integer in
/// decimal, a single-precision number in decimal with its type behind it,
/// and a text as an owned string.
pub open spec fn literal_text(value: Value) -> Seq<Token> {
    match value {
        Value::Char(Some(c)) => chars("'"@) + chars(seq![c]) + chars("'"@),
        Value::Float(Some(bits)) => seq![Token::Float(bits)] + chars(" as f32"@),
        Value::Int(Some(i)) => chars(int_text(i as int)),
        Value::Text(Some(text)) => {
            if text.len() == 0 {
                chars("String::new()"@)
            } else {
                chars("\""@) + chars(text) + chars("\".to_owned()"@)
            }
        },
        _ => Seq::empty(),
    }
}

/// An operand as it stands in a larger expression: in brackets, unless it
/// is a variable or a literal.
pub open spec fn bracketed(kind: ExpressionType, text: Seq<Token>) -> Seq<Token> {
    if kind.is_leaf() {
        text
    } else {
        chars("("@) + text + chars(")"@)
    }
}

/// Two operands with the sign of the expression between them. A text that
/// a variable or a literal on the right of `Add` holds is lent.
pub open spec fn joined(kind: ExpressionType, left: Seq<Token>, right: Seq<Token>, lend: bool) -> Seq<
    Token,
> {
    if lend && kind == ExpressionType::Add {
        left + chars(" + &"@) + right
    } else {
        left + chars(" "@) + chars(kind.sign()) + chars(" "@) + right
    }
}

/// The text that the expression in a folder is turned into.
///
/// A variable, which must be declared and set, is its name; a literal is
/// its text. Every other expression is its two operands, the left one
/// first, with its sign between them.
pub open spec fn emitted(folder: Folder, frames: Seq<Frame>) -> Result<Seq<Token>, Error>
    decreases folder,
{
    match decoded(folder) {
        Err(e) => Err(e),
        Ok((kind, parts)) => {
            if kind == ExpressionType::Variable {
                match variable_of(parts[1], frames) {
                    Err(e) => Err(e),
                    Ok(_) => match count_of(parts[1]) {
                        Err(e) => Err(e),
                        Ok(slot) => Ok(slot_name(slot)),
                    },
                }
            } else if kind == ExpressionType::LiteralValue {
                match literal_of(parts[1], parts[2]) {
                    Err(e) => Err(e),
                    Ok(value) => Ok(literal_text(value)),
                }
            } else {
                proof {
                    lemma_sorted_entries_lie_deeper(folder);
                }
                match decoded(parts[1]) {
                    Err(e) => Err(e),
                    Ok((left_kind, _)) => match emitted(parts[1], frames) {
                        Err(e) => Err(e),
                        Ok(left) => match decoded(parts[2]) {
                            Err(e) => Err(e),
                            Ok((right_kind, _)) => match emitted(parts[2], frames) {
                                Err(e) => Err(e),
                                Ok(right) => match lent(right_kind, parts[2], frames) {
                                    Err(e) => Err(e),
                                    Ok(lend) => Ok(
                                        joined(
                                            kind,
                                            bracketed(left_kind, left),
                                            bracketed(right_kind, right),
                                            lend,
                                        ),
                                    ),
                                },
                            },
                        },
                    },
                }
            }
        },
    }
}

/// Whether an operand is a variable or a literal that holds a text.
pub open spec fn lent(kind: ExpressionType, folder: Folder, frames: Seq<Frame>) -> Result<
    bool,
    Error,
> {
    if kind.is_leaf() {
        match settled(folder, frames) {
            Err(e) => Err(e),
            Ok(value) => Ok(value.kind() == Type::String),
        }
    } else {
        Ok(false)
    }
}

/// A variable that no frame holds cannot be read, and neither can one to
/// which nothing was assigned yet: the first is undeclared, the second
/// uninitialized.
pub proof fn lemma_reading_a_variable(
    folder: Folder,
    frames: Seq<Frame>,
    answers: Seq<u32>,
    used: nat,
    assumed: Option<u32>,
)
    requires
        decoded(folder) matches Ok((kind, _)) && kind == ExpressionType::Variable,
        count_of(decoded(folder)->Ok_0.1[1]) is Ok,
    ensures
        ({
            let place = decoded(folder)->Ok_0.1[1];
            let slot = count_of(place)->Ok_0;
            let read = evaluated(folder, frames, answers, used, assumed);
            match lookup(frames, slot) {
                None => read == Err::<(Computed, nat), Error>(
                    read_fault(ErrorKind::UndeclaredVariable, place, slot),
                ),
                Some(value) => {
                    if value.is_null() {
                        read == Err::<(Computed, nat), Error>(
                            read_fault(ErrorKind::UninitializedUse, place, slot),
                        )
                    } else {
                        read == Ok::<(Computed, nat), Error>((Computed::Value(value), used))
                    }
                },
            }
        }),
{
}

/// The quotient of two integers is never an integer: it is
/// single-precision arithmetic, which comes to a `Float` once its result
/// is there.
pub proof fn lemma_division_comes_to_a_float(
    folder: Folder,
    left: i32,
    right: i32,
    answers: Seq<u32>,
    used: nat,
)
    ensures
        combined(Operator::Divide, Value::Int(Some(left)), Value::Int(Some(right))) == Ok::<
            Computed,
            Error,
        >(
            Computed::Float(
                FloatTask {
                    operator: Operator::Divide,
                    left: Number::Int(left),
                    right: Number::Int(right),
                },
            ),
        ),
        used < answers.len() ==> applied(
            folder,
            ExpressionType::Divide,
            Value::Int(Some(left)),
            Value::Int(Some(right)),
            answers,
            used,
            None,
        ) == Ok::<(Computed, nat), Error>(
            (Computed::Value(Value::Float(Some(answers[used as int]))), used + 1),
        ),
        used >= answers.len() ==> applied(
            folder,
            ExpressionType::Divide,
            Value::Int(Some(left)),
            Value::Int(Some(right)),
            answers,
            used,
            None,
        ) == Ok::<(Computed, nat), Error>(
            (
                Computed::Float(
                    FloatTask {
                        operator: Operator::Divide,
                        left: Number::Int(left),
                        right: Number::Int(right),
                    },
                ),
                used,
            ),
        ),
{
}

/// Up to four bytes make a word of 32 bits, and the bytes of that word are
/// the bytes that it was made of.
pub proof fn lemma_word_keeps_bytes(bytes: Seq<u8>)
    requires
        bytes.len() <= 4,
    ensures
        bytes.len() == 0 ==> word_of(bytes) == 0,
        bytes.len() == 1 ==> word_of(bytes) < 0x100,
        bytes.len() == 2 ==> word_of(bytes) < 0x1_0000,
        bytes.len() == 3 ==> word_of(bytes) < 0x100_0000,
        word_of(bytes) <= u32::MAX,
        bytes_in(word_of(bytes), bytes.len()) == bytes,
    decreases bytes.len(),
{
    if bytes.len() > 0 {
        let rest = bytes.drop_first();
        lemma_word_keeps_bytes(rest);
        let word = word_of(bytes);
        assert(word == bytes[0] as nat + 256 * word_of(rest));
        assert(word % 256 == bytes[0] as nat);
        assert(word / 256 == word_of(rest));
        assert(bytes_in(word, bytes.len()) == seq![bytes[0]] + bytes_in(
            word_of(rest),
            rest.len(),
        ));
        assert(seq![bytes[0]] + rest == bytes);
    }
}

/// The bytes of a literal number can be read back from its value: they are
/// the lowest bytes of the word that stands for it.
pub proof fn lemma_literal_keeps_bytes(bytes: Seq<u8>)
    requires
        bytes.len() <= 4,
    ensures
        literal_value(Type::Int, bytes) matches Value::Int(Some(i)) && bytes_in(
            unsigned(i) as nat,
            bytes.len(),
        ) == bytes,
        literal_value(Type::Float, bytes) matches Value::Float(Some(bits)) && bytes_in(
            bits as nat,
            bytes.len(),
        ) == bytes,
{
    lemma_word_keeps_bytes(bytes);
}

/// As many bytes are read as there are folders.
pub proof fn lemma_bytes_count(folders: Seq<Folder>)
    ensures
        bytes_of(folders) matches Ok(bytes) ==> bytes.len() == folders.len(),
    decreases folders.len(),
{
    if folders.len() > 0 {
        lemma_bytes_count(folders.drop_last());
    }
}

/// The bytes of a literal integer or single-precision number are read back
/// from its value: a literal that is read from folders has at most four
/// bytes, and they are the lowest bytes, the lowest first, of the word
/// that stands for its value.
pub proof fn lemma_literal_is_read_back(kind: Folder, value: Folder)
    requires
        literal_of(kind, value) is Ok,
        count_of(kind) matches Ok(count) && count <= 1,
    ensures
        sorted_entries(value) matches Ok(folders) && bytes_of(folders) matches Ok(bytes)
            && bytes.len() <= 4 && match literal_of(kind, value)->Ok_0 {
            Value::Int(Some(i)) => count_of(kind) == Ok::<usize, Error>(0) && bytes_in(
                unsigned(i) as nat,
                bytes.len(),
            ) == bytes,
            Value::Float(Some(bits)) => count_of(kind) == Ok::<usize, Error>(1) && bytes_in(
                bits as nat,
                bytes.len(),
            ) == bytes,
            _ => false,
        },
{
    let folders = sorted_entries(value)->Ok_0;
    lemma_bytes_count(folders);
    lemma_literal_keeps_bytes(bytes_of(folders)->Ok_0);
}

/// A failure among the first folders of a row is the failure of the row.
pub proof fn lemma_bytes_fail_early(folders: Seq<Folder>, count: int)
    requires
        0 <= count <= folders.len(),
        bytes_of(folders.take(count)) is Err,
    ensures
        bytes_of(folders) == bytes_of(folders.take(count)),
    decreases folders.len(),
{
    if count < folders.len() {
        assert(folders.drop_last().take(count) == folders.take(count));
        lemma_bytes_fail_early(folders.drop_last(), count);
    } else {
        assert(folders.take(count) == folders);
    }
}

fn pack(bytes: &Vec<u8>) -> (word: u32)
    requires
        bytes.len() <= 4,
    ensures
        word == word_of(bytes@),
{
    let mut word: u32 = 0;
    let mut at: usize = bytes.len();
    assert(bytes@.skip(at as int).len() == 0);
    while at > 0
        invariant
            at <= bytes.len() <= 4,
            word == word_of(bytes@.skip(at as int)),
            bytes.len() - at == 0 ==> word == 0,
            bytes.len() - at == 1 ==> word < 0x100,
            bytes.len() - at == 2 ==> word < 0x1_0000,
            bytes.len() - at == 3 ==> word < 0x100_0000,
        decreases at,
    {
        at = at - 1;
        assert(bytes@.skip(at as int).drop_first() == bytes@.skip(at + 1));
        word = word * 256 + bytes[at] as u32;
    }
    assert(bytes@.skip(0) == bytes@);
    word
}

fn to_signed(word: u32) -> (i: i32)
    ensures
        i == signed(word),
{
    if word < 0x8000_0000 {
        word as i32
    } else {
        (word as i64 - 0x1_0000_0000) as i32
    }
}

fn to_text(bytes: &Vec<u8>) -> (text: String)
    ensures
        text@ == bytes@.map_values(|byte: u8| byte as char),
{
    let mut text = String::new();
    let mut at: usize = 0;
    while at < bytes.len()
        invariant
            at <= bytes.len(),
            text@ == bytes@.take(at as int).map_values(|byte: u8| byte as char),
        decreases bytes.len() - at,
    {
        push_char(&mut text, bytes[at] as char);
        at = at + 1;
        assert(text@ == bytes@.take(at as int).map_values(|byte: u8| byte as char));
    }
    assert(bytes@.take(at as int) == bytes@);
    text
}

fn read_bytes(folders: &Vec<&Folder>) -> (r: Result<Vec<u8>, Error>)
    ensures
        match r {
            Ok(bytes) => bytes_of(targets(folders@)) == Ok::<Seq<u8>, Error>(bytes@) && bytes@.len()
                == folders@.len(),
            Err(e) => bytes_of(targets(folders@)) == Err::<Seq<u8>, Error>(e),
        },
{
    let ghost all = targets(folders@);
    let mut value: Vec<u8> = Vec::new();
    let mut at: usize = 0;
    while at < folders.len()
        invariant
            at <= folders.len(),
            all == targets(folders@),
            value@.len() == at,
            bytes_of(all.take(at as int)) == Ok::<Seq<u8>, Error>(value@),
        decreases folders.len() - at,
    {
        assert(all.take(at + 1).drop_last() == all.take(at as int));
        assert(all.take(at + 1).last() == *folders@[at as int]);
        match get_byte(folders[at]) {
            Ok(byte) => {
                value.push(byte);
            },
            Err(e) => {
                proof {
                    lemma_bytes_fail_early(all, at + 1);
                }
                return Err(e);
            },
        }
        at = at + 1;
    }
    assert(all.take(at as int) == all);
    Ok(value)
}

/// Reads a literal: `kind` selects its type and `value` holds its bytes.
pub fn read_literal(kind: &Folder, value: &Folder) -> (r: Result<Variable, Error>)
    ensures
        match r {
            Ok(read) => literal_of(*kind, *value) == Ok::<Value, Error>(read@),
            Err(e) => literal_of(*kind, *value) == Err::<Value, Error>(e),
        },
{
    let folder_count = subfolder_count(kind)?;
    let var_type = match Type::from(folder_count) {
        Ok(var_type) => var_type,
        Err(_) => {
            return Err(input_error(kind.path.clone()));
        },
    };
    let value_folders = sorted_subfolders(value)?;
    let allowed = match var_type {
        Type::Int => value_folders.len() <= 4,
        Type::Float => value_folders.len() <= 4,
        Type::Char => value_folders.len() == 1,
        Type::String => true,
    };
    if !allowed {
        return Err(input_error(value.path.clone()));
    }
    let bytes = read_bytes(&value_folders)?;
    let var = match var_type {
        Type::Int => Variable::Int(Some(to_signed(pack(&bytes)))),
        Type::Float => Variable::Float(Some(pack(&bytes))),
        Type::Char => Variable::Char(Some(bytes[0] as char)),
        Type::String => Variable::String(Some(to_text(&bytes))),
    };
    Ok(var)
}

fn push_bracketed(out: &mut Vec<Token>, leaf: bool, text: &Vec<Token>)
    ensures
        final(out)@ == old(out)@ + (if leaf {
            text@
        } else {
            chars("("@) + text@ + chars(")"@)
        }),
{
    if leaf {
        push_all(out, text);
    } else {
        push_text(out, "(");
        push_all(out, text);
        push_text(out, ")");
        assert(out@ == old(out)@ + (chars("("@) + text@ + chars(")"@)));
    }
}

fn push_literal(out: &mut Vec<Token>, value: &Variable)
    ensures
        final(out)@ == old(out)@ + literal_text(value@),
{
    match value {
        Variable::Char(Some(c)) => {
            let mut text = String::new();
            push_char(&mut text, *c);
            assert(text@ == seq![*c]);
            push_text(out, "'");
            push_text(out, text.as_str());
            push_text(out, "'");
            assert(out@ == old(out)@ + (chars("'"@) + chars(seq![*c]) + chars("'"@)));
        },
        Variable::Float(Some(bits)) => {
            out.push(Token::Float(*bits));
            push_text(out, " as f32");
            assert(out@ == old(out)@ + (seq![Token::Float(*bits)] + chars(" as f32"@)));
        },
        Variable::Int(Some(i)) => {
            let text = integer_text(*i);
            push_text(out, text.as_str());
        },
        Variable::String(Some(text)) => {
            if text.as_str().unicode_len() == 0 {
                push_text(out, "String::new()");
            } else {
                push_text(out, "\"");
                push_text(out, text.as_str());
                push_text(out, "\".to_owned()");
                assert(out@ == old(out)@ + (chars("\""@) + chars(text@) + chars(
                    "\".to_owned()"@,
                )));
            }
        },
        _ => {
            assert(out@ == old(out)@ + Seq::<Token>::empty());
        },
    }
}

fn truth_value(holds: bool) -> (value: Variable)
    ensures
        value@ == truth(holds),
{
    if holds {
        Variable::Int(Some(1))
    } else {
        Variable::Int(Some(0))
    }
}

impl<'a> Expression<'a> {
    /// The folder that the expression was decoded from.
    pub closed spec fn source(&self) -> Folder {
        *self.folder
    }

    /// The sub-folders of that folder, in order.
    pub closed spec fn parts(&self) -> Seq<Folder> {
        targets(self.folders@)
    }

    /// The kind of the expression.
    pub closed spec fn kind(&self) -> ExpressionType {
        self.expression_type
    }

    /// The expression is what its folder decodes to.
    pub open spec fn wf(&self) -> bool {
        decoded(self.source()) == Ok::<(ExpressionType, Seq<Folder>), Error>(
            (self.kind(), self.parts()),
        )
    }

    /// The kind of the expression.
    pub fn expression_type(&self) -> (kind: ExpressionType)
        ensures
            kind == self.kind(),
    {
        self.expression_type
    }

    /// The kind of expression that a number of sub-folders selects.
    pub fn get_type(folder_count: usize) -> (kind: Option<ExpressionType>)
        ensures
            kind == ExpressionType::of_count(folder_count),
    {
        match folder_count {
            0 => Some(ExpressionType::Variable),
            1 => Some(ExpressionType::Add),
            2 => Some(ExpressionType::Substract),
            3 => Some(ExpressionType::Multiply),
            4 => Some(ExpressionType::Divide),
            5 => Some(ExpressionType::LiteralValue),
            6 => Some(ExpressionType::EqualTo),
            7 => Some(ExpressionType::GreaterThan),
            8 => Some(ExpressionType::LessThan),
            _ => None,
        }
    }

    fn get_literal_value(&self) -> (r: Result<Variable, Error>)
        requires
            self.wf(),
            self.kind() == ExpressionType::LiteralValue,
        ensures
            match r {
                Ok(value) => literal_of(self.parts()[1], self.parts()[2]) == Ok::<Value, Error>(
                    value@,
                ),
                Err(e) => literal_of(self.parts()[1], self.parts()[2]) == Err::<Value, Error>(e),
            },
    {
        read_literal(self.folders[1], self.folders[2])
    }

    fn read_variable(&self, scope: &Scope) -> (r: Result<Variable, Error>)
        requires
            self.wf(),
            self.kind() == ExpressionType::Variable,
        ensures
            match r {
                Ok(value) => variable_of(self.parts()[1], scope@) == Ok::<Value, Error>(value@),
                Err(e) => variable_of(self.parts()[1], scope@) == Err::<Value, Error>(e),
            },
    {
        let folder_count = subfolder_count(self.folders[1])?;
        if let Some(var) = scope.get_variable(folder_count) {
            if var.is_null() {
                Err(
                    Error {
                        kind: ErrorKind::UninitializedUse,
                        path: Some(self.folders[1].path.clone()),
                        slot: Some(folder_count),
                    },
                )
            } else {
                Ok(var)
            }
        } else {
            Err(
                Error {
                    kind: ErrorKind::UndeclaredVariable,
                    path: Some(self.folders[1].path.clone()),
                    slot: Some(folder_count),
                },
            )
        }
    }

    fn compute(
        &self,
        operator: Operator,
        left: Variable,
        right: Variable,
        answers: &Vec<u32>,
        used: usize,
        assumed: Option<u32>,
    ) -> (r: Result<(Outcome, usize), Error>)
        requires
            used <= answers.len(),
            self.kind().operator() == Some(operator),
        ensures
            match r {
                Ok((outcome, next)) => applied(
                    self.source(),
                    self.kind(),
                    left@,
                    right@,
                    answers@,
                    used as nat,
                    assumed,
                ) == Ok::<(Computed, nat), Error>((outcome@, next as nat)) && used <= next
                    <= answers.len(),
                Err(e) => applied(
                    self.source(),
                    self.kind(),
                    left@,
                    right@,
                    answers@,
                    used as nat,
                    assumed,
                ) == Err::<(Computed, nat), Error>(e),
            },
    {
        match left.combine(operator, right) {
            Err(e) => Err(Error { kind: e.kind, path: Some(self.folder.path.clone()), slot: None }),
            Ok(Outcome::Value(value)) => Ok((Outcome::Value(value), used)),
            Ok(Outcome::Float(task)) => {
                if used < answers.len() {
                    Ok((Outcome::Value(Variable::Float(Some(answers[used]))), used + 1))
                } else {
                    match assumed {
                        Some(bits) => Ok((Outcome::Value(Variable::Float(Some(bits))), used)),
                        None => Ok((Outcome::Float(task), used)),
                    }
                }
            },
        }
    }

    fn apply(
        &self,
        left: Variable,
        right: Variable,
        answers: &Vec<u32>,
        used: usize,
        assumed: Option<u32>,
    ) -> (r: Result<(Outcome, usize), Error>)
        requires
            used <= answers.len(),
        ensures
            match r {
                Ok((outcome, next)) => applied(
                    self.source(),
                    self.kind(),
                    left@,
                    right@,
                    answers@,
                    used as nat,
                    assumed,
                ) == Ok::<(Computed, nat), Error>((outcome@, next as nat)) && used <= next
                    <= answers.len(),
                Err(e) => applied(
                    self.source(),
                    self.kind(),
                    left@,
                    right@,
                    answers@,
                    used as nat,
                    assumed,
                ) == Err::<(Computed, nat), Error>(e),
            },
    {
        match self.expression_type {
            ExpressionType::Add => self.compute(Operator::Add, left, right, answers, used, assumed),
            ExpressionType::Substract => self.compute(
                Operator::Subtract,
                left,
                right,
                answers,
                used,
                assumed,
            ),
            ExpressionType::Multiply => self.compute(
                Operator::Multiply,
                left,
                right,
                answers,
                used,
                assumed,
            ),
            ExpressionType::Divide => self.compute(
                Operator::Divide,
                left,
                right,
                answers,
                used,
                assumed,
            ),
            ExpressionType::EqualTo => {
                let holds = left == right;
                Ok((Outcome::Value(truth_value(holds)), used))
            },
            ExpressionType::GreaterThan => {
                let holds = left.greater_than(&right);
                Ok((Outcome::Value(truth_value(holds)), used))
            },
            ExpressionType::LessThan => {
                let holds = left.less_than(&right);
                Ok((Outcome::Value(truth_value(holds)), used))
            },
            _ => Err(input_error(self.folder.path.clone())),
        }
    }

    fn evaluate(
        &self,
        scope: &Scope,
        answers: &Vec<u32>,
        used: usize,
        assumed: Option<u32>,
    ) -> (r: Result<(Outcome, usize), Error>)
        requires
            self.wf(),
            used <= answers.len(),
        ensures
            match r {
                Ok((outcome, next)) => evaluated(
                    self.source(),
                    scope@,
                    answers@,
                    used as nat,
                    assumed,
                ) == Ok::<(Computed, nat), Error>((outcome@, next as nat)) && used <= next
                    <= answers.len(),
                Err(e) => evaluated(self.source(), scope@, answers@, used as nat, assumed) == Err::<
                    (Computed, nat),
                    Error,
                >(e),
            },
        decreases self.source(),
    {
        match self.expression_type {
            ExpressionType::Variable => {
                let value = self.read_variable(scope)?;
                Ok((Outcome::Value(value), used))
            },
            ExpressionType::LiteralValue => {
                let value = self.get_literal_value()?;
                Ok((Outcome::Value(value), used))
            },
            _ => {
                proof {
                    lemma_sorted_entries_lie_deeper(self.source());
                }
                let first = Expression::new(self.folders[1])?;
                let second = Expression::new(self.folders[2])?;
                let (left, next) = match first.evaluate(scope, answers, used, assumed)? {
                    (Outcome::Value(left), next) => (left, next),
                    (Outcome::Float(task), next) => {
                        return Ok((Outcome::Float(task), next));
                    },
                };
                let (right, last) = match second.evaluate(scope, answers, next, assumed)? {
                    (Outcome::Value(right), last) => (right, last),
                    (Outcome::Float(task), last) => {
                        return Ok((Outcome::Float(task), last));
                    },
                };
                self.apply(left, right, answers, last, assumed)
            },
        }
    }

    /// Works the expression out against the variables of `scope`.
    ///
    /// Single-precision arithmetic is not done here. Where the expression
    /// needs some, the result is the arithmetic to be done, and the caller
    /// is to work the expression out again with the result of that
    /// arithmetic added to `answers`.
    pub fn execute(&self, scope: &Scope, answers: &Vec<u32>) -> (r: Result<Outcome, Error>)
        requires
            self.wf(),
        ensures
            match r {
                Ok(outcome) => outcome_of(self.source(), scope@, answers@) == Ok::<Computed, Error>(
                    outcome@,
                ),
                Err(e) => outcome_of(self.source(), scope@, answers@) == Err::<Computed, Error>(e),
            },
    {
        let (outcome, _) = self.evaluate(scope, answers, 0, None)?;
        Ok(outcome)
    }

    /// Works the expression out with nought in place of the result of all
    /// single-precision arithmetic: enough to know its type, and whether
    /// it fails.
    pub fn settle(&self, scope: &Scope) -> (r: Result<Variable, Error>)
        requires
            self.wf(),
        ensures
            match r {
                Ok(value) => settled(self.source(), scope@) == Ok::<Value, Error>(value@),
                Err(e) => settled(self.source(), scope@) == Err::<Value, Error>(e),
            },
    {
        let answers: Vec<u32> = Vec::new();
        match self.evaluate(scope, &answers, 0, Some(UNKNOWN))? {
            (Outcome::Value(value), _) => Ok(value),
            (Outcome::Float(_), _) => Ok(Variable::Float(Some(UNKNOWN))),
        }
    }

    fn is_leaf(&self) -> (leaf: bool)
        ensures
            leaf == self.kind().is_leaf(),
    {
        match self.expression_type {
            ExpressionType::Variable => true,
            ExpressionType::LiteralValue => true,
            _ => false,
        }
    }

    fn sign(&self) -> (sign: &'static str)
        ensures
            sign@ == self.kind().sign(),
    {
        match self.expression_type {
            ExpressionType::Add => "+",
            ExpressionType::Substract => "-",
            ExpressionType::Multiply => "*",
            ExpressionType::Divide => "/",
            ExpressionType::GreaterThan => ">",
            ExpressionType::LessThan => "<",
            ExpressionType::EqualTo => "==",
            _ => "",
        }
    }

    /// Turns the expression into text, reading the types of the variables
    /// from `scope`.
    pub fn transpile(&self, scope: &Scope) -> (r: Result<Vec<Token>, Error>)
        requires
            self.wf(),
        ensures
            match r {
                Ok(text) => emitted(self.source(), scope@) == Ok::<Seq<Token>, Error>(text@),
                Err(e) => emitted(self.source(), scope@) == Err::<Seq<Token>, Error>(e),
            },
        decreases self.source(),
    {
        let mut out: Vec<Token> = Vec::new();
        match self.expression_type {
            ExpressionType::Variable => {
                self.read_variable(scope)?;
                let folder_count = subfolder_count(self.folders[1])?;
                push_slot(&mut out, folder_count);
                assert(out@ == slot_name(folder_count));
                Ok(out)
            },
            ExpressionType::LiteralValue => {
                let value = self.get_literal_value()?;
                push_literal(&mut out, &value);
                assert(out@ == literal_text(value@));
                Ok(out)
            },
            _ => {
                proof {
                    lemma_sorted_entries_lie_deeper(self.source());
                }
                let first = Expression::new(self.folders[1])?;
                let left = first.transpile(scope)?;
                let second = Expression::new(self.folders[2])?;
                let right = second.transpile(scope)?;
                let right_is_string = if second.is_leaf() {
                    second.settle(scope)?.get_type() == Type::String
                } else {
                    false
                };
                push_bracketed(&mut out, first.is_leaf(), &left);
                let lend = right_is_string && self.expression_type == ExpressionType::Add;
                if lend {
                    push_text(&mut out, " + &");
                } else {
                    push_text(&mut out, " ");
                    push_text(&mut out, self.sign());
                    push_text(&mut out, " ");
                }
                push_bracketed(&mut out, second.is_leaf(), &right);
                assert(out@ == joined(
                    self.kind(),
                    bracketed(first.kind(), left@),
                    bracketed(second.kind(), right@),
                    right_is_string,
                ));
                Ok(out)
            },
        }
    }

    /// Decodes the expression that a folder holds, as far as its kind.
    pub fn new(folder: &'a Folder) -> (r: Result<Expression<'a>, Error>)
        ensures
            match r {
                Ok(expression) => expression.wf() && expression.source() == *folder,
                Err(e) => decoded(*folder) == Err::<(ExpressionType, Seq<Folder>), Error>(e),
            },
    {
        let subfolders = sorted_subfolders(folder)?;
        if subfolders.len() == 0 {
            return Err(input_error(folder.path.clone()));
        }
        let folder_count = subfolder_count(subfolders[0])?;
        let expression_type = match Expression::get_type(folder_count) {
            Some(expression_type) => expression_type,
            None => {
                return Err(input_error(folder.path.clone()));
            },
        };
        let size: usize = match expression_type {
            ExpressionType::Variable => 2,
            _ => 3,
        };
        if subfolders.len() != size {
            return Err(input_error(folder.path.clone()));
        }
        Ok(Expression { expression_type, folder, folders: subfolders })
    }
}

} // verus!
