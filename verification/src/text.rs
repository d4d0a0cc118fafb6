use vstd::prelude::*;

verus! {

/// A piece of output: a text, or a single-precision number, given by its
/// bits, that the caller is to write in decimal.
#[derive(Debug)]
pub enum Piece {
    Text(String),
    Float(u32),
}

/// What a `Piece` stands for.
pub enum Fragment {
    Text(Seq<char>),
    Float(u32),
}

impl View for Piece {
    type V = Fragment;

    open spec fn view(&self) -> Fragment {
        match *self {
            Piece::Text(text) => Fragment::Text(text@),
            Piece::Float(bits) => Fragment::Float(bits),
        }
    }
}

/// `String::push`: the character is added at the end.
#[verifier::external_body]
pub(crate) fn push_char(text: &mut String, c: char)
    ensures
        final(text)@ == old(text)@.push(c),
{
    text.push(c)
}

/// The character that stands for a digit.
pub open spec fn digit_char(digit: nat) -> char {
    (48 + digit) as char
}

/// A natural number written in decimal.
pub open spec fn decimal(n: nat) -> Seq<char>
    decreases n,
{
    if n < 10 {
        seq![digit_char(n)]
    } else {
        decimal(n / 10).push(digit_char(n % 10))
    }
}

/// An integer written in decimal, with a minus sign if it is negative.
pub open spec fn int_text(i: int) -> Seq<char> {
    if i < 0 {
        seq!['-'] + decimal((-i) as nat)
    } else {
        decimal(i as nat)
    }
}

fn push_decimal(text: &mut String, n: u64)
    ensures
        final(text)@ == old(text)@ + decimal(n as nat),
    decreases n,
{
    if n >= 10 {
        push_decimal(text, n / 10);
    }
    let digit: u8 = (n % 10) as u8;
    push_char(text, (48 + digit) as char);
    assert(text@ == old(text)@ + decimal(n as nat));
}

/// Writes a natural number in decimal.
pub fn decimal_text(n: u64) -> (text: String)
    ensures
        text@ == decimal(n as nat),
{
    let mut text = String::new();
    push_decimal(&mut text, n);
    assert(text@ == decimal(n as nat));
    text
}

/// Writes an integer in decimal.
pub fn integer_text(i: i32) -> (text: String)
    ensures
        text@ == int_text(i as int),
{
    let mut text = String::new();
    if i < 0 {
        push_char(&mut text, '-');
        let size: u64 = (-(i as i64)) as u64;
        push_decimal(&mut text, size);
    } else {
        push_decimal(&mut text, i as u64);
    }
    assert(text@ == int_text(i as int));
    text
}

/// Whether a character is one of the ten digits.
pub open spec fn is_digit(c: char) -> bool {
    '0' <= c && c <= '9'
}

/// The number that the first `count` characters of a text spell in
/// decimal, each of them being a digit.
pub open spec fn digits_value(text: Seq<char>, count: int) -> nat
    decreases count,
{
    if count <= 0 {
        0
    } else {
        10 * digits_value(text, count - 1) + (text[count - 1] as nat - 48) as nat
    }
}

/// Whether a text is made of digits alone.
pub open spec fn all_digits(text: Seq<char>) -> bool {
    forall|i: int| 0 <= i < text.len() ==> is_digit(#[trigger] text[i])
}

/// The integer of 32 bits that a text spells, if it spells one: an
/// optional sign, then one decimal digit or more and nothing else, and the
/// number must fit.
pub open spec fn parsed_int(text: Seq<char>) -> Option<i32> {
    let signed = text.len() > 0 && (text[0] == '-' || text[0] == '+');
    let digits = if signed {
        text.drop_first()
    } else {
        text
    };
    let size = digits_value(digits, digits.len() as int);
    let number = if signed && text[0] == '-' {
        -(size as int)
    } else {
        size as int
    };
    if digits.len() == 0 || !all_digits(digits) {
        None
    } else if i32::MIN <= number <= i32::MAX {
        Some(number as i32)
    } else {
        None
    }
}

/// Reads an integer of 32 bits from a text.
pub fn parse_int(text: &str) -> (r: Option<i32>)
    ensures
        r == parsed_int(text@),
{
    let len: usize = text.unicode_len();
    if len == 0 {
        return None;
    }
    let first = text.get_char(0);
    let signed: bool = first == '-' || first == '+';
    let negative: bool = first == '-';
    let start: usize = if signed {
        1
    } else {
        0
    };
    let ghost digits = if signed {
        text@.drop_first()
    } else {
        text@
    };
    if start == len {
        return None;
    }
    let limit: u64 = 0x8000_0000;
    let mut size: u64 = 0;
    let mut at: usize = start;
    while at < len
        invariant
            start <= at <= len,
            len == text@.len(),
            len > 0,
            signed == (text@[0] == '-' || text@[0] == '+'),
            digits == if signed {
                text@.drop_first()
            } else {
                text@
            },
            digits.len() == len - start,
            forall|i: int| 0 <= i < digits.len() ==> digits[i] == text@[i + start],
            forall|i: int| 0 <= i < at - start ==> is_digit(#[trigger] digits[i]),
            limit == 0x8000_0000,
            size <= limit + 1,
            size <= limit ==> size == digits_value(digits, at - start),
            size > limit ==> digits_value(digits, at - start) > limit,
        decreases len - at,
    {
        let c = text.get_char(at);
        let code: u32 = c as u32;
        if code < 48 || code > 57 {
            assert(!is_digit(digits[at - start]));
            return None;
        }
        if size <= limit {
            size = size * 10 + (code - 48) as u64;
            if size > limit {
                size = limit + 1;
            }
        }
        at = at + 1;
    }
    assert(all_digits(digits));
    if negative {
        if size <= limit {
            Some((-(size as i64)) as i32)
        } else {
            None
        }
    } else {
        if size < limit {
            Some(size as i32)
        } else {
            None
        }
    }
}

} // verus!
