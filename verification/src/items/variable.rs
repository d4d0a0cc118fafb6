use crate::text::{int_text, integer_text, push_char, Fragment, Piece};
use crate::utils::{Error, ErrorKind};
use vstd::prelude::*;

verus! {

/// The four types of the language.
#[derive(Debug, Clone, Copy, PartialEq, Eq, Structural)]
pub enum Type {
    Int,
    Float,
    String,
    Char,
}

/// A value of the language, or the lack of one: each type has a state in
/// which nothing was assigned yet.
///
/// A single-precision number is held by its 32 bits. The engine compares
/// such numbers and tests them against zero itself; arithmetic on them and
/// their decimal form are left to the caller.
#[derive(Debug)]
pub enum Variable {
    Int(Option<i32>),
    Float(Option<u32>),
    String(Option<String>),
    Char(Option<char>),
}

/// The four arithmetic operators.
#[derive(Debug, Clone, Copy, PartialEq, Eq, Structural)]
pub enum Operator {
    Add,
    Subtract,
    Multiply,
    Divide,
}

/// A number as it enters single-precision arithmetic: an integer, which is
/// converted first, or the bits of a single-precision number.
#[derive(Debug, Clone, Copy, PartialEq, Eq, Structural)]
pub enum Number {
    Int(i32),
    Float(u32),
}

/// A piece of single-precision arithmetic that the caller is to carry out:
/// `left operator right`, with each integer converted first.
#[derive(Debug, Clone, Copy, PartialEq, Eq, Structural)]
pub struct FloatTask {
    pub operator: Operator,
    pub left: Number,
    pub right: Number,
}

/// What an arithmetic operator comes to: a value, or arithmetic that is
/// left to the caller and whose result is a `Float`.
#[derive(Debug)]
pub enum Outcome {
    Value(Variable),
    Float(FloatTask),
}

/// What an `Outcome` stands for.
pub enum Computed {
    Value(Value),
    Float(FloatTask),
}

impl View for Outcome {
    type V = Computed;

    open spec fn view(&self) -> Computed {
        match *self {
            Outcome::Value(value) => Computed::Value(value@),
            Outcome::Float(task) => Computed::Float(task),
        }
    }
}

/// What a `Variable` stands for.
pub enum Value {
    Int(Option<i32>),
    Float(Option<u32>),
    Text(Option<Seq<char>>),
    Char(Option<char>),
}

impl View for Variable {
    type V = Value;

    open spec fn view(&self) -> Value {
        match *self {
            Variable::Int(value) => Value::Int(value),
            Variable::Float(value) => Value::Float(value),
            Variable::String(Some(text)) => Value::Text(Some(text@)),
            Variable::String(None) => Value::Text(None),
            Variable::Char(value) => Value::Char(value),
        }
    }
}

impl Type {
    /// The place of a type among the four; a value of a type that comes
    /// earlier is less than any value of a type that comes later.
    pub open spec fn rank(self) -> int {
        match self {
            Type::Int => 0,
            Type::Float => 1,
            Type::String => 2,
            Type::Char => 3,
        }
    }

    /// The type that a number selects: nought `Int`, one `Float`, two
    /// `String`, three `Char`. No other number selects a type.
    pub open spec fn of_count(count: usize) -> Option<Type> {
        if count == 0 {
            Some(Type::Int)
        } else if count == 1 {
            Some(Type::Float)
        } else if count == 2 {
            Some(Type::String)
        } else if count == 3 {
            Some(Type::Char)
        } else {
            None
        }
    }

    /// The type that a number selects. A number that selects none is a
    /// decode error.
    pub fn from(value: usize) -> (r: Result<Type, Error>)
        ensures
            match Type::of_count(value) {
                Some(kind) => r == Ok::<Type, Error>(kind),
                None => r == Err::<Type, Error>(fault(ErrorKind::Decode)),
            },
    {
        if value == 0 {
            Ok(Type::Int)
        } else if value == 1 {
            Ok(Type::Float)
        } else if value == 2 {
            Ok(Type::String)
        } else if value == 3 {
            Ok(Type::Char)
        } else {
            Err(Error { kind: ErrorKind::Decode, path: None, slot: None })
        }
    }
}

impl Value {
    /// The type of the value.
    pub open spec fn kind(self) -> Type {
        match self {
            Value::Int(_) => Type::Int,
            Value::Float(_) => Type::Float,
            Value::Text(_) => Type::String,
            Value::Char(_) => Type::Char,
        }
    }

    /// The value of a type to which nothing was assigned yet.
    pub open spec fn unset(kind: Type) -> Value {
        match kind {
            Type::Int => Value::Int(None),
            Type::Float => Value::Float(None),
            Type::String => Value::Text(None),
            Type::Char => Value::Char(None),
        }
    }

    /// Whether nothing was assigned yet.
    pub open spec fn is_null(self) -> bool {
        match self {
            Value::Int(value) => value is None,
            Value::Float(value) => value is None,
            Value::Text(value) => value is None,
            Value::Char(value) => value is None,
        }
    }

    /// Whether the value counts as true: a number if it is not zero, a
    /// character if it is not the zero code point, a text if it is not
    /// empty. Nothing that is unset counts as true.
    pub open spec fn truthy(self) -> bool {
        match self {
            Value::Int(Some(i)) => i != 0,
            Value::Float(Some(bits)) => !float_is_zero(bits),
            Value::Text(Some(text)) => text.len() != 0,
            Value::Char(Some(c)) => c != '\0',
            _ => false,
        }
    }
}

/// The bits of a single-precision number without its sign.
pub open spec fn float_size(bits: u32) -> int {
    (bits % 0x8000_0000) as int
}

/// Whether the sign bit is set.
pub open spec fn float_is_negative(bits: u32) -> bool {
    bits >= 0x8000_0000
}

/// Not a number: the exponent is all ones and the fraction is not zero.
pub open spec fn float_is_nan(bits: u32) -> bool {
    float_size(bits) > 0x7f80_0000
}

/// Zero, of either sign.
pub open spec fn float_is_zero(bits: u32) -> bool {
    float_size(bits) == 0
}

/// Where a number that is not NaN stands on the number line, up to a
/// stretch that keeps the order.
pub open spec fn float_place(bits: u32) -> int {
    if float_is_negative(bits) {
        -float_size(bits)
    } else {
        float_size(bits)
    }
}

/// Equality of two single-precision numbers: NaN equals nothing, and the
/// two zeros are equal.
pub open spec fn float_equal(left: u32, right: u32) -> bool {
    !float_is_nan(left) && !float_is_nan(right) && float_place(left) == float_place(right)
}

/// Order of two single-precision numbers: NaN is neither less nor greater
/// than anything.
pub open spec fn float_less(left: u32, right: u32) -> bool {
    !float_is_nan(left) && !float_is_nan(right) && float_place(left) < float_place(right)
}

/// Order of two texts: by the first character in which they differ, and a
/// text comes before every longer text that starts with it.
pub open spec fn text_less(left: Seq<char>, right: Seq<char>, from: int) -> bool
    decreases right.len() - from,
{
    if from < 0 || from >= right.len() {
        false
    } else if from >= left.len() {
        true
    } else if left[from] != right[from] {
        left[from] < right[from]
    } else {
        text_less(left, right, from + 1)
    }
}

/// Whether two values are equal. Values of different types never are; two
/// unset values of one type are.
pub open spec fn same_value(left: Value, right: Value) -> bool {
    match (left, right) {
        (Value::Int(a), Value::Int(b)) => a == b,
        (Value::Float(Some(a)), Value::Float(Some(b))) => float_equal(a, b),
        (Value::Float(None), Value::Float(None)) => true,
        (Value::Text(a), Value::Text(b)) => a == b,
        (Value::Char(a), Value::Char(b)) => a == b,
        _ => false,
    }
}

/// Whether `left` is less than `right`. Between types the rank of the type
/// decides; within a type an unset value is less than every set one.
pub open spec fn less_value(left: Value, right: Value) -> bool {
    match left {
        Value::Int(a) => match right {
            Value::Int(b) => match (a, b) {
                (Some(a), Some(b)) => a < b,
                _ => a is None && b is Some,
            },
            _ => true,
        },
        Value::Float(a) => match right {
            Value::Int(_) => false,
            Value::Float(b) => match (a, b) {
                (Some(a), Some(b)) => float_less(a, b),
                _ => a is None && b is Some,
            },
            _ => true,
        },
        Value::Text(a) => match right {
            Value::Text(b) => match (a, b) {
                (Some(a), Some(b)) => text_less(a, b, 0),
                _ => a is None && b is Some,
            },
            Value::Char(_) => true,
            _ => false,
        },
        Value::Char(a) => match right {
            Value::Char(b) => match (a, b) {
                (Some(a), Some(b)) => (a as u32) < (b as u32),
                _ => a is None && b is Some,
            },
            _ => false,
        },
    }
}

/// Values of different types are ordered by the rank of their types.
pub proof fn lemma_order_between_types(left: Value, right: Value)
    requires
        left.kind() != right.kind(),
    ensures
        less_value(left, right) == (left.kind().rank() < right.kind().rank()),
        !same_value(left, right),
{
}

/// A failure that names neither a folder nor a slot.
pub open spec fn fault(kind: ErrorKind) -> Error {
    Error { kind, path: None, slot: None }
}

/// What an operator makes of two numbers. Two integers are added,
/// subtracted and multiplied as integers, wrapping round at 32 bits. They
/// are never divided as integers: a division is single-precision
/// arithmetic, as is every operation with a `Float` in it.
pub open spec fn arithmetic(operator: Operator, left: Number, right: Number) -> Computed {
    match (left, right) {
        (Number::Int(a), Number::Int(b)) => match operator {
            Operator::Add => Computed::Value(Value::Int(Some(a.wrapping_add(b)))),
            Operator::Subtract => Computed::Value(Value::Int(Some(a.wrapping_sub(b)))),
            Operator::Multiply => Computed::Value(Value::Int(Some(a.wrapping_mul(b)))),
            Operator::Divide => Computed::Float(FloatTask { operator, left, right }),
        },
        _ => Computed::Float(FloatTask { operator, left, right }),
    }
}

/// The failure that an operator reports for an operand of a type that it
/// does not take.
pub open spec fn unfit(operator: Operator) -> Error {
    if operator == Operator::Add {
        fault(ErrorKind::TypeMismatch)
    } else {
        fault(ErrorKind::UnsupportedOperation)
    }
}

/// What an operator makes of two values.
///
/// Numbers go with numbers under every operator, and a text goes with a
/// text under `Add`, which joins them. A character goes with nothing. The
/// left operand is looked at first: its type, then whether it is set; then
/// the right one in the same way.
pub open spec fn combined(operator: Operator, left: Value, right: Value) -> Result<Computed, Error> {
    match left {
        Value::Char(_) => Err(unfit(operator)),
        Value::Text(a) => {
            if operator != Operator::Add {
                Err(unfit(operator))
            } else {
                match (a, right) {
                    (None, _) => Err(fault(ErrorKind::UninitializedUse)),
                    (Some(a), Value::Text(Some(b))) => Ok(Computed::Value(Value::Text(Some(a + b)))),
                    (Some(_), Value::Text(None)) => Err(fault(ErrorKind::UninitializedUse)),
                    _ => Err(unfit(operator)),
                }
            }
        },
        _ => match (number_of(left), right) {
            (None, _) => Err(fault(ErrorKind::UninitializedUse)),
            (_, Value::Char(_)) => Err(unfit(operator)),
            (_, Value::Text(_)) => Err(unfit(operator)),
            (Some(a), _) => match number_of(right) {
                None => Err(fault(ErrorKind::UninitializedUse)),
                Some(b) => Ok(arithmetic(operator, a, b)),
            },
        },
    }
}

/// The number that a value holds, if it is a number and is set.
pub open spec fn number_of(value: Value) -> Option<Number> {
    match value {
        Value::Int(Some(i)) => Some(Number::Int(i)),
        Value::Float(Some(bits)) => Some(Number::Float(bits)),
        _ => None,
    }
}

/// How a value is shown: a number in decimal, a character and a text as
/// they are, and anything unset as `null`.
pub open spec fn shown(value: Value) -> Fragment {
    match value {
        Value::Int(Some(i)) => Fragment::Text(int_text(i as int)),
        Value::Float(Some(bits)) => Fragment::Float(bits),
        Value::Text(Some(text)) => Fragment::Text(text),
        Value::Char(Some(c)) => Fragment::Text(seq![c]),
        _ => Fragment::Text("null"@),
    }
}

fn failure(kind: ErrorKind) -> (e: Error)
    ensures
        e == fault(kind),
{
    Error { kind, path: None, slot: None }
}

fn unfit_for(operator: Operator) -> (e: Error)
    ensures
        e == unfit(operator),
{
    match operator {
        Operator::Add => failure(ErrorKind::TypeMismatch),
        _ => failure(ErrorKind::UnsupportedOperation),
    }
}

fn calculate(operator: Operator, left: Number, right: Number) -> (r: Outcome)
    ensures
        r@ == arithmetic(operator, left, right),
{
    match (left, right) {
        (Number::Int(a), Number::Int(b)) => match operator {
            Operator::Add => Outcome::Value(Variable::Int(Some(a.wrapping_add(b)))),
            Operator::Subtract => Outcome::Value(Variable::Int(Some(a.wrapping_sub(b)))),
            Operator::Multiply => Outcome::Value(Variable::Int(Some(a.wrapping_mul(b)))),
            Operator::Divide => Outcome::Float(FloatTask { operator, left, right }),
        },
        _ => Outcome::Float(FloatTask { operator, left, right }),
    }
}

fn float_place_of(bits: u32) -> (place: i64)
    ensures
        place == float_place(bits),
{
    if bits >= 0x8000_0000 {
        -((bits % 0x8000_0000) as i64)
    } else {
        (bits % 0x8000_0000) as i64
    }
}

fn float_nan(bits: u32) -> (nan: bool)
    ensures
        nan == float_is_nan(bits),
{
    bits % 0x8000_0000 > 0x7f80_0000
}

fn floats_equal(left: u32, right: u32) -> (equal: bool)
    ensures
        equal == float_equal(left, right),
{
    !float_nan(left) && !float_nan(right) && float_place_of(left) == float_place_of(right)
}

fn floats_less(left: u32, right: u32) -> (less: bool)
    ensures
        less == float_less(left, right),
{
    !float_nan(left) && !float_nan(right) && float_place_of(left) < float_place_of(right)
}

fn texts_equal(left: &str, right: &str) -> (equal: bool)
    ensures
        equal == (left@ == right@),
{
    let len: usize = left.unicode_len();
    if len != right.unicode_len() {
        return false;
    }
    let mut at: usize = 0;
    while at < len
        invariant
            len == left@.len(),
            len == right@.len(),
            at <= len,
            forall|i: int| 0 <= i < at ==> left@[i] == right@[i],
        decreases len - at,
    {
        if left.get_char(at) != right.get_char(at) {
            return false;
        }
        at = at + 1;
    }
    assert(left@ =~= right@);
    true
}

fn texts_less(left: &str, right: &str) -> (less: bool)
    ensures
        less == text_less(left@, right@, 0),
{
    let left_len: usize = left.unicode_len();
    let right_len: usize = right.unicode_len();
    let mut at: usize = 0;
    while at < right_len
        invariant
            left_len == left@.len(),
            right_len == right@.len(),
            at <= right_len,
            text_less(left@, right@, 0) == text_less(left@, right@, at as int),
        decreases right_len - at,
    {
        if at >= left_len {
            return true;
        }
        let a: u32 = left.get_char(at) as u32;
        let b: u32 = right.get_char(at) as u32;
        if a != b {
            return a < b;
        }
        at = at + 1;
    }
    false
}

impl Variable {
    /// Makes an unset value of the type that `folders_count` selects. A
    /// number that selects no type is a decode error.
    pub fn new(folders_count: usize) -> (r: Result<Variable, Error>)
        ensures
            match Type::of_count(folders_count) {
                Some(kind) => r matches Ok(made) && made@ == Value::unset(kind),
                None => r == Err::<Variable, Error>(fault(ErrorKind::Decode)),
            },
    {
        let kind = Type::from(folders_count)?;
        Ok(Variable::from(kind))
    }

    /// The type of the value.
    pub fn get_type(&self) -> (kind: Type)
        ensures
            kind == self@.kind(),
    {
        match self {
            Variable::Int(_) => Type::Int,
            Variable::Float(_) => Type::Float,
            Variable::String(_) => Type::String,
            Variable::Char(_) => Type::Char,
        }
    }

    /// Whether two values are of one type.
    pub fn same_as(&self, var: &Variable) -> (same: bool)
        ensures
            same == (self@.kind() == var@.kind()),
    {
        self.get_type() == var.get_type()
    }

    /// Whether nothing was assigned yet.
    pub fn is_null(&self) -> (null: bool)
        ensures
            null == self@.is_null(),
    {
        match self {
            Variable::Int(value) => value.is_none(),
            Variable::Float(value) => value.is_none(),
            Variable::String(value) => value.is_none(),
            Variable::Char(value) => value.is_none(),
        }
    }

    /// Whether the value counts as true.
    pub fn is_truthy(&self) -> (truthy: bool)
        ensures
            truthy == self@.truthy(),
    {
        match self {
            Variable::Char(value) => {
                if let Some(value) = value {
                    *value != '\0'
                } else {
                    false
                }
            },
            Variable::Float(value) => {
                if let Some(value) = value {
                    *value % 0x8000_0000 != 0
                } else {
                    false
                }
            },
            Variable::Int(value) => {
                if let Some(value) = value {
                    *value != 0
                } else {
                    false
                }
            },
            Variable::String(value) => {
                if let Some(value) = value {
                    value.as_str().unicode_len() != 0
                } else {
                    false
                }
            },
        }
    }

    /// Whether the value does not count as true.
    pub fn is_falsy(&self) -> (falsy: bool)
        ensures
            falsy == !self@.truthy(),
    {
        !self.is_truthy()
    }

    fn number(&self) -> (n: Option<Number>)
        ensures
            n == number_of(self@),
    {
        match self {
            Variable::Int(Some(i)) => Some(Number::Int(*i)),
            Variable::Float(Some(bits)) => Some(Number::Float(*bits)),
            _ => None,
        }
    }

    /// Applies an arithmetic operator to two values.
    pub fn combine(self, operator: Operator, other: Variable) -> (r: Result<Outcome, Error>)
        ensures
            match r {
                Ok(outcome) => combined(operator, self@, other@) == Ok::<Computed, Error>(outcome@),
                Err(e) => combined(operator, self@, other@) == Err::<Computed, Error>(e),
            },
    {
        match self {
            Variable::Char(_) => Err(unfit_for(operator)),
            Variable::String(a) => {
                match operator {
                    Operator::Add => {},
                    _ => {
                        return Err(unfit_for(operator));
                    },
                }
                let a = match a {
                    Some(a) => a,
                    None => {
                        return Err(failure(ErrorKind::UninitializedUse));
                    },
                };
                match other {
                    Variable::String(Some(b)) => Ok(
                        Outcome::Value(Variable::String(Some(a.concat(b.as_str())))),
                    ),
                    Variable::String(None) => Err(failure(ErrorKind::UninitializedUse)),
                    _ => Err(unfit_for(operator)),
                }
            },
            _ => {
                let a = match self.number() {
                    Some(a) => a,
                    None => {
                        return Err(failure(ErrorKind::UninitializedUse));
                    },
                };
                match other {
                    Variable::Char(_) => Err(unfit_for(operator)),
                    Variable::String(_) => Err(unfit_for(operator)),
                    _ => match other.number() {
                        Some(b) => Ok(calculate(operator, a, b)),
                        None => Err(failure(ErrorKind::UninitializedUse)),
                    },
                }
            },
        }
    }

    /// The sum of two numbers, or two texts joined.
    pub fn add(self, other: Variable) -> (r: Result<Outcome, Error>)
        ensures
            match r {
                Ok(outcome) => combined(Operator::Add, self@, other@) == Ok::<Computed, Error>(
                    outcome@,
                ),
                Err(e) => combined(Operator::Add, self@, other@) == Err::<Computed, Error>(e),
            },
    {
        self.combine(Operator::Add, other)
    }

    /// The difference of two numbers.
    pub fn sub(self, other: Variable) -> (r: Result<Outcome, Error>)
        ensures
            match r {
                Ok(outcome) => combined(Operator::Subtract, self@, other@) == Ok::<Computed, Error>(
                    outcome@,
                ),
                Err(e) => combined(Operator::Subtract, self@, other@) == Err::<Computed, Error>(e),
            },
    {
        self.combine(Operator::Subtract, other)
    }

    /// The product of two numbers.
    pub fn mul(self, other: Variable) -> (r: Result<Outcome, Error>)
        ensures
            match r {
                Ok(outcome) => combined(Operator::Multiply, self@, other@) == Ok::<Computed, Error>(
                    outcome@,
                ),
                Err(e) => combined(Operator::Multiply, self@, other@) == Err::<Computed, Error>(e),
            },
    {
        self.combine(Operator::Multiply, other)
    }

    /// The quotient of two numbers, which is always a `Float`.
    pub fn div(self, other: Variable) -> (r: Result<Outcome, Error>)
        ensures
            match r {
                Ok(outcome) => combined(Operator::Divide, self@, other@) == Ok::<Computed, Error>(
                    outcome@,
                ),
                Err(e) => combined(Operator::Divide, self@, other@) == Err::<Computed, Error>(e),
            },
    {
        self.combine(Operator::Divide, other)
    }

    /// Shows the value as it is printed.
    pub fn render(&self) -> (piece: Piece)
        ensures
            piece@ == shown(self@),
    {
        match self {
            Variable::Int(Some(i)) => Piece::Text(integer_text(*i)),
            Variable::Float(Some(bits)) => Piece::Float(*bits),
            Variable::String(Some(text)) => Piece::Text(text.clone()),
            Variable::Char(Some(c)) => {
                let mut text = String::new();
                push_char(&mut text, *c);
                assert(text@ == seq![*c]);
                Piece::Text(text)
            },
            _ => Piece::Text(String::from_str("null")),
        }
    }

    /// Whether `self` is less than `other`.
    pub fn less_than(&self, other: &Variable) -> (less: bool)
        ensures
            less == less_value(self@, other@),
    {
        match self {
            Variable::Int(a) => match other {
                Variable::Int(b) => {
                    if let Some(x) = a {
                        if let Some(y) = b {
                            *x < *y
                        } else {
                            false
                        }
                    } else {
                        b.is_some()
                    }
                },
                _ => true,
            },
            Variable::Float(a) => match other {
                Variable::Int(_) => false,
                Variable::Float(b) => {
                    if let Some(x) = a {
                        if let Some(y) = b {
                            floats_less(*x, *y)
                        } else {
                            false
                        }
                    } else {
                        b.is_some()
                    }
                },
                _ => true,
            },
            Variable::String(a) => match other {
                Variable::String(b) => {
                    if let Some(x) = a {
                        if let Some(y) = b {
                            texts_less(x.as_str(), y.as_str())
                        } else {
                            false
                        }
                    } else {
                        b.is_some()
                    }
                },
                Variable::Char(_) => true,
                _ => false,
            },
            Variable::Char(a) => match other {
                Variable::Char(b) => {
                    if let Some(x) = a {
                        if let Some(y) = b {
                            let x: u32 = *x as u32;
                            let y: u32 = *y as u32;
                            x < y
                        } else {
                            false
                        }
                    } else {
                        b.is_some()
                    }
                },
                _ => false,
            },
        }
    }

    /// Whether `self` is greater than `other`.
    pub fn greater_than(&self, other: &Variable) -> (greater: bool)
        ensures
            greater == less_value(other@, self@),
    {
        other.less_than(self)
    }
}

impl Clone for Variable {
    fn clone(&self) -> (made: Variable)
        ensures
            made == *self,
    {
        match self {
            Variable::Int(value) => Variable::Int(*value),
            Variable::Float(value) => Variable::Float(*value),
            Variable::String(Some(text)) => Variable::String(Some(text.clone())),
            Variable::String(None) => Variable::String(None),
            Variable::Char(value) => Variable::Char(*value),
        }
    }
}

impl PartialEq for Variable {
    fn eq(&self, other: &Variable) -> (equal: bool) {
        match (self, other) {
            (Variable::Int(a), Variable::Int(b)) => a == b,
            (Variable::Float(Some(a)), Variable::Float(Some(b))) => floats_equal(*a, *b),
            (Variable::Float(None), Variable::Float(None)) => true,
            (Variable::String(Some(a)), Variable::String(Some(b))) => texts_equal(
                a.as_str(),
                b.as_str(),
            ),
            (Variable::String(None), Variable::String(None)) => true,
            (Variable::Char(a), Variable::Char(b)) => a == b,
            _ => false,
        }
    }
}

impl vstd::std_specs::cmp::PartialEqSpecImpl for Variable {
    open spec fn obeys_eq_spec() -> bool {
        true
    }

    open spec fn eq_spec(&self, other: &Variable) -> bool {
        same_value(self@, other@)
    }
}

impl From<Type> for Variable {
    fn from(value: Type) -> (made: Variable) {
        match value {
            Type::Char => Variable::Char(None),
            Type::Int => Variable::Int(None),
            Type::Float => Variable::Float(None),
            Type::String => Variable::String(None),
        }
    }
}

impl vstd::std_specs::convert::FromSpecImpl<Type> for Variable {
    open spec fn obeys_from_spec() -> bool {
        true
    }

    open spec fn from_spec(value: Type) -> Variable {
        match value {
            Type::Char => Variable::Char(None),
            Type::Int => Variable::Int(None),
            Type::Float => Variable::Float(None),
            Type::String => Variable::String(None),
        }
    }
}

} // verus!
