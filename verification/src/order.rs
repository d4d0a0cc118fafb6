use crate::collate::comparable;
use std::cmp::Ordering;
use vstd::prelude::*;

verus! {

/// The lower-case form of a text: what `str::to_lowercase` makes of it.
pub uninterp spec fn lowercase(text: Seq<char>) -> Seq<char>;

/// How two texts compare in natural order, in which a run of digits counts
/// as one number: what `human_sort::compare` makes of them.
pub uninterp spec fn natural_order(left: Seq<char>, right: Seq<char>) -> Ordering;

/// Whether a character counts as part of a number, in any script: what
/// `char::is_numeric` makes of it.
pub uninterp spec fn numeric(c: char) -> bool;

/// `char::is_numeric`: the result says whether the character counts as
/// part of a number.
#[verifier::external_body]
pub(crate) fn is_numeric(c: char) -> (b: bool)
    ensures
        b == numeric(c),
{
    c.is_numeric()
}

/// `str::to_lowercase`: the result is the lower-case form of `text`.
#[verifier::external_body]
pub(crate) fn to_lowercase(text: &str) -> (lower: String)
    ensures
        lower@ == lowercase(text@),
{
    text.to_lowercase()
}

/// `human_sort::compare`: the result is the natural order of the two
/// texts.
///
/// That function walks through both texts as `comparable` does, and adds
/// the digits of each number that it reads up in 32 bits. So it is only
/// called on texts in which no number that it reads is too great for 32
/// bits.
#[verifier::external_body]
fn compare(left: &str, right: &str) -> (order: Ordering)
    requires
        comparable(left@, right@),
    ensures
        order == natural_order(left@, right@),
{
    human_sort::compare(left, right)
}

/// Whether `left` comes strictly after `right` in natural order.
pub open spec fn follows(left: Seq<char>, right: Seq<char>) -> bool {
    natural_order(left, right) == Ordering::Greater
}

/// Tells whether `left` comes strictly after `right`.
pub(crate) fn comes_after(left: &str, right: &str) -> (after: bool)
    requires
        comparable(left@, right@),
    ensures
        after == follows(left@, right@),
{
    match compare(left, right) {
        Ordering::Greater => true,
        _ => false,
    }
}

} // verus!
