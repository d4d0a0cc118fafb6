use crate::order::{comes_after, follows, is_numeric, numeric};
use crate::text::is_digit;
use vstd::prelude::*;

verus! {

/// The greatest number that may be read from a text that is compared.
pub const MAX_NUMBER: u64 = 0xffff_ffff;

/// How many digits follow one another in `text`, starting at `from`.
pub open spec fn digits_at(text: Seq<char>, from: int) -> nat
    decreases text.len() - from,
{
    if 0 <= from < text.len() && is_digit(text[from]) {
        1 + digits_at(text, from + 1)
    } else {
        0
    }
}

/// The number that the digits of `text` from `from` up to `to` spell.
pub open spec fn spelt(text: Seq<char>, from: int, to: int) -> nat
    decreases to - from,
{
    if to <= from {
        0
    } else {
        10 * spelt(text, from, to - 1) + (text[to - 1] as nat - 48) as nat
    }
}

/// The number that stands in `text` at `from`: what the digits that
/// follow one another from there on spell, and nought if there is none.
pub open spec fn number_at(text: Seq<char>, from: int) -> nat {
    spelt(text, from, from + digits_at(text, from))
}

/// The place behind the number that stands at `at` and one more character,
/// or the end of the text if it ends before that.
pub open spec fn behind(text: Seq<char>, at: int) -> int {
    if at + digits_at(text, at) + 1 <= text.len() {
        at + digits_at(text, at) + 1
    } else {
        text.len() as int
    }
}

/// Whether no number that is read when two texts are compared, the left
/// one from `left_at` on and the right one from `right_at` on, is greater
/// than `MAX_NUMBER`.
///
/// The texts are gone through side by side until one of them ends.
/// Characters that are equal are passed. Where two characters differ, no
/// number is read unless both count as part of a number, and nothing
/// follows. If both do, the number that stands there is read in each text;
/// where no digit stands, that number is nought. If the two numbers are
/// equal, the digits and one more character are passed in each text and
/// the texts are gone through further; if not, nothing follows.
pub open spec fn readable(left: Seq<char>, right: Seq<char>, left_at: int, right_at: int) -> bool
    decreases left.len() - left_at + right.len() - right_at,
{
    if left_at < 0 || right_at < 0 || left_at >= left.len() || right_at >= right.len() {
        true
    } else if left[left_at] == right[right_at] {
        readable(left, right, left_at + 1, right_at + 1)
    } else if numeric(left[left_at]) && numeric(right[right_at]) {
        let left_number = number_at(left, left_at);
        let right_number = number_at(right, right_at);
        &&& left_number <= MAX_NUMBER
        &&& right_number <= MAX_NUMBER
        &&& left_number == right_number ==> readable(
            left,
            right,
            behind(left, left_at),
            behind(right, right_at),
        )
    } else {
        true
    }
}

/// Two texts can be compared when no number that is read for it is
/// greater than `MAX_NUMBER`.
pub open spec fn comparable(left: Seq<char>, right: Seq<char>) -> bool {
    readable(left, right, 0, 0)
}

/// A run of digits is as long as it is: where digits follow one another
/// from `from` up to `to` and no digit stands at `to`, `to - from` digits
/// stand at `from`.
pub proof fn lemma_run_length(text: Seq<char>, from: int, to: int)
    requires
        0 <= from <= to <= text.len(),
        forall|k: int| from <= k < to ==> is_digit(#[trigger] text[k]),
        to == text.len() || !is_digit(text[to]),
    ensures
        digits_at(text, from) == to - from,
    decreases to - from,
{
    if from < to {
        lemma_run_length(text, from + 1, to);
    }
}

fn digit(c: char) -> (b: bool)
    ensures
        b == is_digit(c),
{
    let code: u32 = c as u32;
    48 <= code && code <= 57
}

/// Reads the number that stands at `from`, where a digit stands, and
/// returns the place behind its digits and the number, or one more than
/// `MAX_NUMBER` if the number is greater than that.
fn read_digits(text: &str, from: usize) -> (r: (usize, u64))
    requires
        from < text@.len(),
        is_digit(text@[from as int]),
    ensures
        r.0 == from + digits_at(text@, from as int),
        from < r.0 <= text@.len(),
        r.1 <= MAX_NUMBER + 1,
        r.1 <= MAX_NUMBER ==> r.1 == number_at(text@, from as int),
        r.1 > MAX_NUMBER ==> number_at(text@, from as int) > MAX_NUMBER,
{
    let len: usize = text.unicode_len();
    let mut to: usize = from;
    let mut number: u64 = 0;
    let mut more: bool = true;
    while more
        invariant
            len == text@.len(),
            from <= to <= len,
            forall|k: int| from <= k < to ==> is_digit(#[trigger] text@[k]),
            more ==> to < len && is_digit(text@[to as int]),
            !more ==> to > from && (to == len || !is_digit(text@[to as int])),
            number <= MAX_NUMBER + 1,
            number <= MAX_NUMBER ==> number == spelt(text@, from as int, to as int),
            number > MAX_NUMBER ==> spelt(text@, from as int, to as int) > MAX_NUMBER,
        decreases len - to + (if more { 1int } else { 0int }),
    {
        let code: u32 = text.get_char(to) as u32;
        if number <= MAX_NUMBER {
            number = number * 10 + (code - 48) as u64;
            if number > MAX_NUMBER {
                number = MAX_NUMBER + 1;
            }
        }
        to = to + 1;
        more = to < len && digit(text.get_char(to));
    }
    proof {
        lemma_run_length(text@, from as int, to as int);
    }
    (to, number)
}

/// Reads the number that stands at `from`, which is nought where no digit
/// stands, and returns the place behind its digits and the number, or one
/// more than `MAX_NUMBER` if the number is greater than that.
fn read_number(text: &str, from: usize) -> (r: (usize, u64))
    requires
        from < text@.len(),
    ensures
        r.0 == from + digits_at(text@, from as int),
        from <= r.0 <= text@.len(),
        r.1 <= MAX_NUMBER + 1,
        r.1 <= MAX_NUMBER ==> r.1 == number_at(text@, from as int),
        r.1 > MAX_NUMBER ==> number_at(text@, from as int) > MAX_NUMBER,
{
    if digit(text.get_char(from)) {
        read_digits(text, from)
    } else {
        (from, 0)
    }
}

/// Whether two texts can be compared.
pub fn can_compare(left: &str, right: &str) -> (b: bool)
    ensures
        b == comparable(left@, right@),
{
    let left_len: usize = left.unicode_len();
    let right_len: usize = right.unicode_len();
    let mut left_at: usize = 0;
    let mut right_at: usize = 0;
    while left_at < left_len && right_at < right_len
        invariant
            left_len == left@.len(),
            right_len == right@.len(),
            left_at <= left_len,
            right_at <= right_len,
            comparable(left@, right@) == readable(left@, right@, left_at as int, right_at as int),
        decreases left_len - left_at + right_len - right_at,
    {
        let x = left.get_char(left_at);
        let y = right.get_char(right_at);
        if x == y {
            left_at = left_at + 1;
            right_at = right_at + 1;
        } else if is_numeric(x) && is_numeric(y) {
            let (left_to, left_number) = read_number(left, left_at);
            let (right_to, right_number) = read_number(right, right_at);
            if left_number > MAX_NUMBER || right_number > MAX_NUMBER {
                return false;
            }
            if left_number != right_number {
                return true;
            }
            left_at = if left_to < left_len {
                left_to + 1
            } else {
                left_to
            };
            right_at = if right_to < right_len {
                right_to + 1
            } else {
                right_to
            };
        } else {
            return true;
        }
    }
    true
}

/// The texts that a list of strings stands for.
pub open spec fn texts(keys: Seq<String>) -> Seq<Seq<char>> {
    keys.map_values(|key: String| key@)
}

/// Every text can be compared with every later one.
pub open spec fn all_comparable(keys: Seq<Seq<char>>) -> bool {
    forall|i: int, j: int|
        0 <= i < j < keys.len() ==> comparable(#[trigger] keys[i], #[trigger] keys[j])
}

/// What comparing each text with every earlier one comes to: the row of a
/// text says, for each text before it, whether that one comes strictly
/// after it in natural order.
pub open spec fn comparisons(keys: Seq<Seq<char>>) -> Seq<Seq<bool>> {
    Seq::new(
        keys.len(),
        |later: int| Seq::new(later as nat, |earlier: int| follows(keys[earlier], keys[later])),
    )
}

/// The rows of a table.
pub open spec fn rows(table: Seq<Vec<bool>>) -> Seq<Seq<bool>> {
    table.map_values(|row: Vec<bool>| row@)
}

/// Whether item `earlier` was found to come strictly after item `later`.
/// What a table does not hold was not found.
pub open spec fn overtaken(after: Seq<Seq<bool>>, earlier: int, later: int) -> bool {
    0 <= later < after.len() && 0 <= earlier < after[later].len() && after[later][earlier]
}

/// Where `item` goes among the items already placed: behind the last of
/// them that does not come strictly after it.
pub open spec fn place_for(after: Seq<Seq<bool>>, placed: Seq<usize>, item: int) -> int
    decreases placed.len(),
{
    if placed.len() > 0 && overtaken(after, placed.last() as int, item) {
        place_for(after, placed.drop_last(), item)
    } else {
        placed.len() as int
    }
}

/// The order in which the first `count` items come out: each in turn is
/// put behind the last one before it that does not come strictly after it.
/// Items of which neither comes strictly after the other therefore keep
/// the order they came in.
pub open spec fn arrangement(after: Seq<Seq<bool>>, count: nat) -> Seq<usize>
    decreases count,
{
    if count == 0 {
        Seq::empty()
    } else {
        let placed = arrangement(after, (count - 1) as nat);
        placed.insert(place_for(after, placed, count - 1), (count - 1) as usize)
    }
}

/// The place for an item lies among the items already placed, or just
/// behind them.
pub proof fn lemma_place_in_range(after: Seq<Seq<bool>>, placed: Seq<usize>, item: int)
    ensures
        0 <= place_for(after, placed, item) <= placed.len(),
    decreases placed.len(),
{
    if placed.len() > 0 && overtaken(after, placed.last() as int, item) {
        lemma_place_in_range(after, placed.drop_last(), item);
    }
}

/// Whether an item stands somewhere in an order.
pub open spec fn holds(order: Seq<usize>, item: int) -> bool {
    exists|i: int| 0 <= i < order.len() && #[trigger] order[i] == item
}

/// An arrangement of `count` items holds each of the numbers below `count`
/// exactly once.
pub proof fn lemma_arrangement_permutes(after: Seq<Seq<bool>>, count: nat)
    requires
        count <= usize::MAX,
    ensures
        arrangement(after, count).len() == count,
        forall|i: int| 0 <= i < count ==> #[trigger] arrangement(after, count)[i] < count,
        forall|i: int, j: int|
            0 <= i < j < count ==> #[trigger] arrangement(after, count)[i] != #[trigger] arrangement(
                after,
                count,
            )[j],
        forall|item: int| 0 <= item < count ==> #[trigger] holds(arrangement(after, count), item),
    decreases count,
{
    if count > 0 {
        let placed = arrangement(after, (count - 1) as nat);
        let place = place_for(after, placed, count - 1);
        let order = arrangement(after, count);
        lemma_arrangement_permutes(after, (count - 1) as nat);
        lemma_place_in_range(after, placed, count - 1);
        assert forall|item: int| 0 <= item < count implies #[trigger] holds(order, item) by {
            if item == count - 1 {
                assert(order[place] == item);
            } else {
                assert(holds(placed, item));
                let was = choose|i: int| 0 <= i < placed.len() && #[trigger] placed[i] == item;
                if was < place {
                    assert(order[was] == item);
                } else {
                    assert(order[was + 1] == item);
                }
            }
        }
    }
}

/// Every item placed behind the place of `item` comes strictly after it,
/// and the one just before that place does not.
pub proof fn lemma_place_divides(after: Seq<Seq<bool>>, placed: Seq<usize>, item: int)
    ensures
        forall|k: int|
            place_for(after, placed, item) <= k < placed.len() ==> overtaken(
                after,
                (#[trigger] placed[k]) as int,
                item,
            ),
        place_for(after, placed, item) > 0 ==> !overtaken(
            after,
            placed[place_for(after, placed, item) - 1] as int,
            item,
        ),
    decreases placed.len(),
{
    lemma_place_in_range(after, placed, item);
    if placed.len() > 0 && overtaken(after, placed.last() as int, item) {
        lemma_place_divides(after, placed.drop_last(), item);
        lemma_place_in_range(after, placed.drop_last(), item);
        assert forall|k: int| place_for(after, placed, item) <= k < placed.len() implies overtaken(
            after,
            (#[trigger] placed[k]) as int,
            item,
        ) by {
            if k < placed.len() - 1 {
                assert(placed.drop_last()[k] == placed[k]);
            }
        }
        if place_for(after, placed, item) > 0 {
            assert(placed.drop_last()[place_for(after, placed, item) - 1] == placed[place_for(
                after,
                placed,
                item,
            ) - 1]);
        }
    }
}

/// Whether the natural order treats the texts as an order should: of two
/// texts at most one comes strictly after the other, and if a first may
/// stand before a second and the second before a third, the first may
/// stand before the third.
pub open spec fn orderly(keys: Seq<Seq<char>>) -> bool {
    &&& forall|i: int, j: int|
        0 <= i < keys.len() && 0 <= j < keys.len() && follows(#[trigger] keys[i], #[trigger] keys[j])
            ==> !follows(keys[j], keys[i])
    &&& forall|i: int, j: int, k: int|
        0 <= i < keys.len() && 0 <= j < keys.len() && 0 <= k < keys.len() && !follows(
            #[trigger] keys[i],
            #[trigger] keys[j],
        ) && !follows(keys[j], #[trigger] keys[k]) ==> !follows(keys[i], keys[k])
}

/// The texts stand in order: none comes strictly after a later one, and of
/// two that may stand either way round the one that came in first stands
/// first.
pub open spec fn in_order(keys: Seq<Seq<char>>, order: Seq<usize>) -> bool {
    forall|p: int, q: int|
        0 <= p < q < order.len() ==> {
            &&& !follows(keys[(#[trigger] order[p]) as int], keys[(#[trigger] order[q]) as int])
            &&& !follows(keys[order[q] as int], keys[order[p] as int]) ==> order[p] < order[q]
        }
}

/// Where the natural order treats the texts as an order should, arranging
/// them by what comparing them comes to puts them in order and leaves
/// those that may stand either way round as they came in.
pub proof fn lemma_arrangement_is_in_order(keys: Seq<Seq<char>>, count: nat)
    requires
        orderly(keys),
        count <= keys.len(),
        count <= usize::MAX,
    ensures
        in_order(keys, arrangement(comparisons(keys), count)),
    decreases count,
{
    if count > 0 {
        let after = comparisons(keys);
        let item = (count - 1) as usize;
        let placed = arrangement(after, (count - 1) as nat);
        let place = place_for(after, placed, count - 1);
        let order = arrangement(after, count);
        lemma_arrangement_is_in_order(keys, (count - 1) as nat);
        lemma_arrangement_permutes(after, (count - 1) as nat);
        lemma_place_in_range(after, placed, count - 1);
        lemma_place_divides(after, placed, count - 1);
        assert(order == placed.insert(place, item));
        assert forall|k: int| 0 <= k < placed.len() implies overtaken(
            after,
            (#[trigger] placed[k]) as int,
            item as int,
        ) == follows(keys[placed[k] as int], keys[item as int]) by {
            assert(placed[k] < count - 1);
        }
        assert forall|p: int, q: int| 0 <= p < q < order.len() implies {
            &&& !follows(keys[(#[trigger] order[p]) as int], keys[(#[trigger] order[q]) as int])
            &&& !follows(keys[order[q] as int], keys[order[p] as int]) ==> order[p] < order[q]
        } by {
            if q == place {
                // the new text stands at q, and an earlier one at p
                assert(order[p] == placed[p]);
                assert(placed[p] < count - 1);
                assert(!follows(keys[placed[place - 1] as int], keys[item as int]));
                if p < place - 1 {
                    assert(!follows(keys[placed[p] as int], keys[placed[place - 1] as int]));
                    assert(!follows(keys[placed[p] as int], keys[item as int]));
                }
            } else if p == place {
                // the new text stands at p, and one that comes after it at q
                assert(order[q] == placed[q - 1]);
                assert(follows(keys[placed[q - 1] as int], keys[item as int]));
            } else {
                let was_p = if p < place {
                    p
                } else {
                    p - 1
                };
                let was_q = if q < place {
                    q
                } else {
                    q - 1
                };
                assert(order[p] == placed[was_p]);
                assert(order[q] == placed[was_q]);
            }
        }
    }
}

/// Compares each text with every earlier one, if that can be done.
pub fn compare_all(keys: &Vec<String>) -> (r: Option<Vec<Vec<bool>>>)
    ensures
        match r {
            Some(after) => all_comparable(texts(keys@)) && rows(after@) == comparisons(
                texts(keys@),
            ),
            None => !all_comparable(texts(keys@)),
        },
{
    let ghost all = texts(keys@);
    let mut after: Vec<Vec<bool>> = Vec::new();
    let mut later: usize = 0;
    while later < keys.len()
        invariant
            later <= keys.len(),
            all == texts(keys@),
            after@.len() == later,
            forall|i: int, j: int|
                0 <= i < j < later ==> comparable(#[trigger] all[i], #[trigger] all[j]),
            forall|j: int|
                0 <= j < later ==> (#[trigger] after@[j])@ == Seq::new(
                    j as nat,
                    |earlier: int| follows(all[earlier], all[j]),
                ),
        decreases keys.len() - later,
    {
        let mut row: Vec<bool> = Vec::new();
        let mut earlier: usize = 0;
        while earlier < later
            invariant
                earlier <= later < keys.len(),
                all == texts(keys@),
                row@.len() == earlier,
                forall|i: int|
                    0 <= i < earlier ==> comparable(#[trigger] all[i], all[later as int]),
                forall|i: int|
                    0 <= i < earlier ==> #[trigger] row@[i] == follows(all[i], all[later as int]),
            decreases later - earlier,
        {
            if !can_compare(keys[earlier].as_str(), keys[later].as_str()) {
                assert(!comparable(all[earlier as int], all[later as int]));
                return None;
            }
            row.push(comes_after(keys[earlier].as_str(), keys[later].as_str()));
            earlier = earlier + 1;
        }
        assert(row@ == Seq::new(
            later as nat,
            |earlier: int| follows(all[earlier], all[later as int]),
        ));
        after.push(row);
        later = later + 1;
    }
    assert(rows(after@) == comparisons(all));
    Some(after)
}

/// Puts `count` items in order by what comparing them came to, and
/// returns, for each place, the number of the item that stands there.
pub fn arrange(after: &Vec<Vec<bool>>, count: usize) -> (order: Vec<usize>)
    ensures
        order@ == arrangement(rows(after@), count as nat),
{
    let ghost table = rows(after@);
    let mut order: Vec<usize> = Vec::new();
    let mut item: usize = 0;
    while item < count
        invariant
            item <= count,
            table == rows(after@),
            order@ == arrangement(table, item as nat),
        decreases count - item,
    {
        proof {
            lemma_arrangement_permutes(table, item as nat);
        }
        let mut place: usize = order.len();
        let mut searching: bool = place > 0;
        assert(order@.take(place as int) == order@);
        while searching
            invariant
                item < count,
                table == rows(after@),
                order@.len() == item,
                forall|i: int| 0 <= i < item ==> #[trigger] order@[i] < item,
                place <= order@.len(),
                searching ==> place > 0,
                place_for(table, order@, item as int) == place_for(
                    table,
                    order@.take(place as int),
                    item as int,
                ),
                !searching ==> place_for(table, order@.take(place as int), item as int) == place,
            decreases place + (if searching { 1int } else { 0int }),
        {
            let before: usize = order[place - 1];
            let found = item < after.len() && before < after[item].len() && after[item][before];
            assert(found == overtaken(table, before as int, item as int));
            if found {
                assert(order@.take(place as int).drop_last() == order@.take(place - 1));
                place = place - 1;
                searching = place > 0;
            } else {
                searching = false;
            }
        }
        order.insert(place, item);
        item = item + 1;
    }
    order
}

} // verus!
