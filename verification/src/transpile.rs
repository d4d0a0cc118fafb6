use crate::items::command::{commands_in, transpile_block, translated_block};
use crate::items::variable::Value;
use crate::scope::Scope;
use crate::text::{decimal, decimal_text};
use crate::utils::{Error, Folder};
use vstd::prelude::*;

verus! {

/// A piece of the text that the program is turned into: a character, or a
/// single-precision number, given by its bits, that is to be written in
/// decimal in its place.
#[derive(Debug, Clone, Copy, PartialEq, Eq, Structural)]
pub enum Token {
    Char(char),
    Float(u32),
}

/// A text as tokens.
pub open spec fn chars(text: Seq<char>) -> Seq<Token>
    decreases text.len(),
{
    if text.len() == 0 {
        Seq::empty()
    } else {
        chars(text.drop_last()).push(Token::Char(text.last()))
    }
}

/// The name that stands for a slot.
pub open spec fn slot_name(slot: usize) -> Seq<Token> {
    chars("var_"@) + chars(decimal(slot as nat))
}

/// A text with a tabulator after each of its line ends.
pub open spec fn shifted(text: Seq<Token>) -> Seq<Token>
    decreases text.len(),
{
    if text.len() == 0 {
        Seq::empty()
    } else if text.last() == Token::Char('\n') {
        shifted(text.drop_last()) + seq![Token::Char('\n'), Token::Char('\t')]
    } else {
        shifted(text.drop_last()).push(text.last())
    }
}

/// A text moved in by one level: each of its lines, the last one too,
/// starts with a tabulator and ends with a line end.
pub open spec fn indented(text: Seq<Token>) -> Seq<Token> {
    seq![Token::Char('\t')] + shifted(text) + seq![Token::Char('\n')]
}

/// Adds a text.
pub fn push_text(out: &mut Vec<Token>, text: &str)
    ensures
        final(out)@ == old(out)@ + chars(text@),
{
    let len: usize = text.unicode_len();
    let mut at: usize = 0;
    assert(out@ == old(out)@ + chars(text@.take(0)));
    while at < len
        invariant
            len == text@.len(),
            at <= len,
            out@ == old(out)@ + chars(text@.take(at as int)),
        decreases len - at,
    {
        out.push(Token::Char(text.get_char(at)));
        assert(text@.take(at + 1).drop_last() == text@.take(at as int));
        at = at + 1;
        assert(out@ == old(out)@ + chars(text@.take(at as int)));
    }
    assert(text@.take(at as int) == text@);
}

/// Adds tokens.
pub fn push_all(out: &mut Vec<Token>, more: &Vec<Token>)
    ensures
        final(out)@ == old(out)@ + more@,
{
    let mut at: usize = 0;
    while at < more.len()
        invariant
            at <= more.len(),
            out@ == old(out)@ + more@.take(at as int),
        decreases more.len() - at,
    {
        out.push(more[at]);
        at = at + 1;
        assert(out@ == old(out)@ + more@.take(at as int));
    }
    assert(more@.take(at as int) == more@);
}

/// Adds the name of a slot.
pub fn push_slot(out: &mut Vec<Token>, slot: usize)
    ensures
        final(out)@ == old(out)@ + slot_name(slot),
{
    push_text(out, "var_");
    let number = decimal_text(slot as u64);
    push_text(out, number.as_str());
    assert(out@ == old(out)@ + slot_name(slot));
}

/// Adds a text, moved in by one level.
pub fn push_indented(out: &mut Vec<Token>, text: &Vec<Token>)
    ensures
        final(out)@ == old(out)@ + indented(text@),
{
    out.push(Token::Char('\t'));
    let mut at: usize = 0;
    while at < text.len()
        invariant
            at <= text.len(),
            out@ == old(out)@ + seq![Token::Char('\t')] + shifted(text@.take(at as int)),
        decreases text.len() - at,
    {
        let token = text[at];
        assert(text@.take(at + 1).drop_last() == text@.take(at as int));
        let line_end = match token {
            Token::Char(c) => c == '\n',
            Token::Float(_) => false,
        };
        if line_end {
            out.push(Token::Char('\n'));
            out.push(Token::Char('\t'));
        } else {
            out.push(token);
        }
        at = at + 1;
        assert(out@ == old(out)@ + seq![Token::Char('\t')] + shifted(text@.take(at as int)));
    }
    assert(text@.take(at as int) == text@);
    out.push(Token::Char('\n'));
    assert(out@ == old(out)@ + indented(text@));
}

/// The text that a whole program is turned into: its commands, in order
/// and moved in by one level, as the body of the function that a program
/// starts with; before it the import that printing needs, if anything in
/// the program prints.
pub open spec fn program_text(root: Folder) -> Result<Seq<Token>, Error> {
    match translated_block(root, seq![Map::<usize, Value>::empty()], commands_in(root)) {
        Err(e) => Err(e),
        Ok((_, body, prints)) => Ok(
            (if prints {
                chars("use std::io::Write;\n\n"@)
            } else {
                Seq::empty()
            }) + chars("fn main() {\n"@) + body + chars("}\n"@),
        ),
    }
}

/// Turns the program whose commands `root` holds into text.
pub fn translate(root: &Folder) -> (r: Result<Vec<Token>, Error>)
    ensures
        match r {
            Ok(text) => program_text(*root) == Ok::<Seq<Token>, Error>(text@),
            Err(e) => program_text(*root) == Err::<Seq<Token>, Error>(e),
        },
{
    let (_, body) = transpile_block(root, Scope::new(None))?;
    let mut out: Vec<Token> = Vec::new();
    if body.prints {
        push_text(&mut out, "use std::io::Write;\n\n");
    }
    push_text(&mut out, "fn main() {\n");
    push_all(&mut out, &body.text);
    push_text(&mut out, "}\n");
    Ok(out)
}

} // verus!
