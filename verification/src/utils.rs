use crate::collate::{
    all_comparable, arrange, arrangement, compare_all, comparisons, holds,
    lemma_arrangement_is_in_order, lemma_arrangement_permutes, orderly, rows, texts,
};
use crate::order::{follows, lowercase, to_lowercase};
use crate::text::{decimal, decimal_text};
use vstd::prelude::*;

verus! {

/// A directory as the engine sees it: where it lies, and the directories
/// directly inside it.
///
/// `entries` is `None` when the directory could not be listed. The order of
/// the entries carries no meaning: it is whatever order the listing came
/// in. The engine puts them in order itself, by their paths.
#[derive(Debug)]
pub struct Folder {
    pub path: String,
    pub entries: Option<Vec<Folder>>,
}

/// The ways in which decoding or running a program can fail.
#[derive(Clone, Copy, Debug, PartialEq, Eq, Structural)]
pub enum ErrorKind {
    /// The tree is malformed: a folder could not be listed, holds the wrong
    /// number of sub-folders, or its sub-folders cannot be put in order
    /// because a number in their names is too great to be read.
    Decode,
    /// A slot was declared twice in one frame.
    DuplicateDeclaration,
    /// A slot was used that no frame declares.
    UndeclaredVariable,
    /// A value was assigned to a slot of another type, or two values of
    /// types that do not go together were added.
    TypeMismatch,
    /// A value that was never assigned was read.
    UninitializedUse,
    /// An arithmetic operator was applied to a character or to text.
    UnsupportedOperation,
}

/// A failure, with the folder and the slot it arose at where there is one.
#[derive(Debug)]
pub struct Error {
    pub kind: ErrorKind,
    pub path: Option<String>,
    pub slot: Option<usize>,
}

impl ErrorKind {
    /// What a kind of failure is called.
    pub open spec fn name(self) -> Seq<char> {
        match self {
            ErrorKind::Decode => "malformed folder"@,
            ErrorKind::DuplicateDeclaration => "variable declared more than once"@,
            ErrorKind::UndeclaredVariable => "use of undeclared variable"@,
            ErrorKind::TypeMismatch => "types do not go together"@,
            ErrorKind::UninitializedUse => "use of uninitialized variable"@,
            ErrorKind::UnsupportedOperation => "operation not supported for this type"@,
        }
    }
}

impl Error {
    /// The failure in words: the path of the folder, if there is one, then
    /// what the failure is called, then the name of the slot, if there is
    /// one.
    pub open spec fn described(self) -> Seq<char> {
        (match self.path {
            Some(path) => path@ + " : "@,
            None => Seq::empty(),
        }) + self.kind.name() + (match self.slot {
            Some(slot) => " var_"@ + decimal(slot as nat),
            None => Seq::empty(),
        })
    }

    /// Says in words what failed, and where.
    pub fn message(&self) -> (text: String)
        ensures
            text@ == self.described(),
    {
        let mut text = String::new();
        if let Some(path) = &self.path {
            text.append(path.as_str());
            text.append(" : ");
        }
        text.append(
            match self.kind {
                ErrorKind::Decode => "malformed folder",
                ErrorKind::DuplicateDeclaration => "variable declared more than once",
                ErrorKind::UndeclaredVariable => "use of undeclared variable",
                ErrorKind::TypeMismatch => "types do not go together",
                ErrorKind::UninitializedUse => "use of uninitialized variable",
                ErrorKind::UnsupportedOperation => "operation not supported for this type",
            },
        );
        if let Some(slot) = self.slot {
            text.append(" var_");
            let number = decimal_text(slot as u64);
            text.append(number.as_str());
        }
        assert(text@ == self.described());
        text
    }
}

/// The failure reported for a malformed folder.
pub open spec fn malformed(folder: Folder) -> Error {
    Error { kind: ErrorKind::Decode, path: Some(folder.path), slot: None }
}

/// A decode error at the folder with the given path.
pub fn input_error(path: String) -> (e: Error)
    ensures
        e == (Error { kind: ErrorKind::Decode, path: Some(path), slot: None }),
{
    Error { kind: ErrorKind::Decode, path: Some(path), slot: None }
}

/// How many sub-folders a folder holds, if it could be listed.
pub open spec fn count_of(folder: Folder) -> Result<usize, Error> {
    match folder.entries {
        Some(entries) => Ok(entries.len()),
        None => Err(malformed(folder)),
    }
}

/// Counts the sub-folders of `folder`. Fails when the folder could not be
/// listed.
pub fn subfolder_count(folder: &Folder) -> (r: Result<usize, Error>)
    ensures
        r == count_of(*folder),
{
    match &folder.entries {
        Some(entries) => Ok(entries.len()),
        None => Err(input_error(folder.path.clone())),
    }
}

/// The bit that a folder stands for: it is set if the folder holds at least
/// one sub-folder. A folder that could not be listed stands for no bit.
pub open spec fn bit_of(folder: Folder) -> Result<bool, Error> {
    match folder.entries {
        Some(entries) => Ok(entries.len() != 0),
        None => Err(malformed(folder)),
    }
}

/// Reads the bit that a folder stands for.
pub fn is_bit_set(folder: &Folder) -> (r: Result<bool, Error>)
    ensures
        r == bit_of(*folder),
{
    let count = subfolder_count(folder)?;
    Ok(count != 0)
}

/// The text by which a folder is put in order: its path in lower case.
pub open spec fn key_of(folder: Folder) -> Seq<char> {
    lowercase(folder.path@)
}

/// The texts by which a row of folders is put in order.
pub open spec fn keys_of(entries: Seq<Folder>) -> Seq<Seq<char>> {
    entries.map_values(|entry: Folder| key_of(entry))
}

/// The sub-folders of a folder in natural order, without regard to case.
///
/// The lower-case form of each path is compared with those of the entries
/// before it, and the entries are arranged by what that comes to. This
/// order gives each sub-folder its meaning. Comparing two paths may read
/// numbers from them, and a number that is too great for 32 bits cannot be
/// read: a folder with two such entries is malformed, as is one that could
/// not be listed.
pub open spec fn sorted_entries(folder: Folder) -> Result<Seq<Folder>, Error> {
    match folder.entries {
        Some(entries) => {
            if all_comparable(keys_of(entries@)) {
                Ok(
                    arrangement(comparisons(keys_of(entries@)), entries@.len()).map_values(
                        |at: usize| entries@[at as int],
                    ),
                )
            } else {
                Err(malformed(folder))
            }
        },
        None => Err(malformed(folder)),
    }
}

/// Every sub-folder that comes out in order is one of the entries, and so
/// lies deeper in the tree than the folder itself.
pub proof fn lemma_sorted_entries_lie_deeper(folder: Folder)
    ensures
        match sorted_entries(folder) {
            Ok(found) => {
                &&& folder.entries is Some
                &&& found.len() == folder.entries->0@.len()
                &&& forall|i: int|
                    0 <= i < found.len() ==> decreases_to!(folder => #[trigger] found[i])
            },
            Err(_) => true,
        },
{
    if let Ok(found) = sorted_entries(folder) {
        let entries = folder.entries->0;
        assert(entries@.len() == entries.len());
        lemma_arrangement_permutes(comparisons(keys_of(entries@)), entries@.len());
        assert forall|i: int| 0 <= i < found.len() implies decreases_to!(folder => #[trigger] found[i])
        by {
            let at = arrangement(comparisons(keys_of(entries@)), entries@.len())[i];
            assert(found[i] == entries@[at as int]);
            assert(decreases_to!(entries => entries[at as int]));
        }
    }
}

/// Listing goes with counting: what is listed in order is every entry
/// once, so as many as are counted; a folder that cannot be counted cannot
/// be listed; and one that can be counted can be listed unless comparing
/// two of its entries reads a number that is too great for 32 bits.
pub proof fn lemma_listing_goes_with_counting(folder: Folder)
    ensures
        match sorted_entries(folder) {
            Ok(found) => {
                &&& folder.entries is Some
                &&& count_of(folder) == Ok::<usize, Error>(found.len() as usize)
                &&& found.len() == folder.entries->0@.len()
                &&& forall|i: int|
                    0 <= i < found.len() ==> exists|at: int|
                        0 <= at < found.len() && #[trigger] found[i] == folder.entries->0@[at]
                &&& forall|at: int|
                    0 <= at < found.len() ==> exists|i: int|
                        0 <= i < found.len() && found[i] == #[trigger] folder.entries->0@[at]
            },
            Err(e) => e == malformed(folder),
        },
        count_of(folder) is Err ==> sorted_entries(folder) == Err::<Seq<Folder>, Error>(
            count_of(folder)->Err_0,
        ),
        count_of(folder) is Ok ==> (sorted_entries(folder) is Ok <==> all_comparable(
            keys_of(folder.entries->0@),
        )),
{
    if let Ok(found) = sorted_entries(folder) {
        let entries = folder.entries->0;
        assert(entries@.len() == entries.len());
        let order = arrangement(comparisons(keys_of(entries@)), entries@.len());
        lemma_arrangement_permutes(comparisons(keys_of(entries@)), entries@.len());
        assert forall|i: int| 0 <= i < found.len() implies exists|at: int|
            0 <= at < found.len() && #[trigger] found[i] == entries@[at] by {
            assert(found[i] == entries@[order[i] as int]);
        }
        assert forall|at: int| 0 <= at < found.len() implies exists|i: int|
            0 <= i < found.len() && found[i] == #[trigger] entries@[at] by {
            assert(holds(order, at));
            let i = choose|i: int| 0 <= i < order.len() && #[trigger] order[i] == at;
            assert(found[i] == entries@[at]);
        }
    }
}

/// Where the natural order treats the paths as an order should, what is
/// listed stands in that order: no entry comes strictly after a later one.
pub proof fn lemma_listing_is_in_order(folder: Folder)
    requires
        sorted_entries(folder) is Ok,
        orderly(keys_of(folder.entries->0@)),
    ensures
        forall|i: int, j: int|
            0 <= i < j < sorted_entries(folder)->Ok_0.len() ==> !follows(
                key_of(#[trigger] sorted_entries(folder)->Ok_0[i]),
                key_of(#[trigger] sorted_entries(folder)->Ok_0[j]),
            ),
{
    let entries = folder.entries->0;
    let keys = keys_of(entries@);
    let found = sorted_entries(folder)->Ok_0;
    assert(entries@.len() == entries.len());
    let order = arrangement(comparisons(keys), entries@.len());
    lemma_arrangement_permutes(comparisons(keys), entries@.len());
    lemma_arrangement_is_in_order(keys, entries@.len());
    assert forall|i: int, j: int| 0 <= i < j < found.len() implies !follows(
        key_of(#[trigger] found[i]),
        key_of(#[trigger] found[j]),
    ) by {
        assert(found[i] == entries@[order[i] as int]);
        assert(found[j] == entries@[order[j] as int]);
        assert(keys[order[i] as int] == key_of(entries@[order[i] as int]));
        assert(keys[order[j] as int] == key_of(entries@[order[j] as int]));
    }
}

/// The folders that a list of references points to.
pub open spec fn targets(found: Seq<&Folder>) -> Seq<Folder> {
    found.map_values(|entry: &Folder| *entry)
}

/// Lists the sub-folders of `folder` in natural order.
pub fn sorted_subfolders<'a>(folder: &'a Folder) -> (r: Result<Vec<&'a Folder>, Error>)
    ensures
        match r {
            Ok(found) => sorted_entries(*folder) == Ok::<Seq<Folder>, Error>(targets(found@)),
            Err(e) => sorted_entries(*folder) == Err::<Seq<Folder>, Error>(e),
        },
{
    let entries = match &folder.entries {
        Some(entries) => entries,
        None => {
            return Err(input_error(folder.path.clone()));
        },
    };
    let mut keys: Vec<String> = Vec::new();
    let mut at: usize = 0;
    while at < entries.len()
        invariant
            at <= entries.len(),
            keys@.len() == at,
            forall|i: int| 0 <= i < at ==> (#[trigger] keys@[i])@ == key_of(entries@[i]),
        decreases entries.len() - at,
    {
        keys.push(to_lowercase(entries[at].path.as_str()));
        at = at + 1;
    }
    assert(texts(keys@) == keys_of(entries@));
    let after = match compare_all(&keys) {
        Some(after) => after,
        None => {
            return Err(input_error(folder.path.clone()));
        },
    };
    let order = arrange(&after, entries.len());
    proof {
        lemma_arrangement_permutes(comparisons(keys_of(entries@)), entries@.len());
    }
    let mut found: Vec<&'a Folder> = Vec::new();
    let mut at: usize = 0;
    while at < order.len()
        invariant
            at <= order.len(),
            order@.len() == entries@.len(),
            forall|i: int| 0 <= i < order@.len() ==> #[trigger] order@[i] < entries@.len(),
            found@.len() == at,
            forall|i: int| 0 <= i < at ==> *(#[trigger] found@[i]) == entries@[order@[i] as int],
        decreases order.len() - at,
    {
        found.push(&entries[order[at]]);
        at = at + 1;
    }
    assert(targets(found@) == order@.map_values(|at: usize| entries@[at as int]));
    Ok(found)
}

/// The number that a row of bits spells, the most significant bit first.
pub open spec fn bits_value(bits: Seq<bool>) -> nat
    decreases bits.len(),
{
    if bits.len() == 0 {
        0
    } else {
        2 * bits_value(bits.drop_last()) + if bits.last() {
            1nat
        } else {
            0nat
        }
    }
}

/// The lowest `count` bits of a number, the most significant first.
pub open spec fn bits_in(value: nat, count: nat) -> Seq<bool>
    decreases count,
{
    if count == 0 {
        Seq::empty()
    } else {
        bits_in(value / 2, (count - 1) as nat).push(value % 2 == 1)
    }
}

/// A row of bits is the bits of the number that it spells.
pub proof fn lemma_spelt_bits(bits: Seq<bool>)
    ensures
        bits_in(bits_value(bits), bits.len()) == bits,
    decreases bits.len(),
{
    if bits.len() > 0 {
        lemma_spelt_bits(bits.drop_last());
        assert(bits.drop_last().push(bits.last()) == bits);
    }
}

proof fn lemma_lowest_bit(value: nat, count: nat)
    requires
        count > 0,
    ensures
        bits_value(bits_in(value, count)) == 2 * bits_value(
            bits_in(value / 2, (count - 1) as nat),
        ) + value % 2,
{
    let bits = bits_in(value, count);
    assert(bits.drop_last() == bits_in(value / 2, (count - 1) as nat));
}

/// The eight bits of a byte spell that byte.
pub proof fn lemma_byte_keeps_bits(byte: u8)
    ensures
        bits_value(bits_in(byte as nat, 8)) == byte,
{
    let b0 = byte as nat;
    let b1 = b0 / 2;
    let b2 = b1 / 2;
    let b3 = b2 / 2;
    let b4 = b3 / 2;
    let b5 = b4 / 2;
    let b6 = b5 / 2;
    let b7 = b6 / 2;
    lemma_lowest_bit(b0, 8);
    lemma_lowest_bit(b1, 7);
    lemma_lowest_bit(b2, 6);
    lemma_lowest_bit(b3, 5);
    lemma_lowest_bit(b4, 4);
    lemma_lowest_bit(b5, 3);
    lemma_lowest_bit(b6, 2);
    lemma_lowest_bit(b7, 1);
    assert(bits_value(bits_in(b7 / 2, 0)) == 0);
    assert(b7 / 2 == 0);
}

/// The bits that a row of folders stands for. The first folder that could
/// not be listed decides the failure.
pub open spec fn bits_of(folders: Seq<Folder>) -> Result<Seq<bool>, Error>
    decreases folders.len(),
{
    if folders.len() == 0 {
        Ok(Seq::empty())
    } else {
        match bits_of(folders.drop_last()) {
            Err(e) => Err(e),
            Ok(bits) => match bit_of(folders.last()) {
                Err(e) => Err(e),
                Ok(bit) => Ok(bits.push(bit)),
            },
        }
    }
}

/// The byte that a folder stands for.
///
/// A byte has exactly two sub-folders, one for each hexadecimal digit, the
/// high one first. Each of them has exactly four sub-folders, one for each
/// bit, the most significant first.
pub open spec fn byte_of(folder: Folder) -> Result<u8, Error> {
    match sorted_entries(folder) {
        Err(e) => Err(e),
        Ok(digits) => {
            if digits.len() != 2 {
                Err(malformed(folder))
            } else {
                match sorted_entries(digits[0]) {
                    Err(e) => Err(e),
                    Ok(high) => match sorted_entries(digits[1]) {
                        Err(e) => Err(e),
                        Ok(low) => {
                            if high.len() != 4 {
                                Err(malformed(digits[0]))
                            } else if low.len() != 4 {
                                Err(malformed(digits[1]))
                            } else {
                                match bits_of(high) {
                                    Err(e) => Err(e),
                                    Ok(high_bits) => match bits_of(low) {
                                        Err(e) => Err(e),
                                        Ok(low_bits) => Ok(
                                            bits_value(high_bits + low_bits) as u8,
                                        ),
                                    },
                                }
                            }
                        },
                    },
                }
            }
        },
    }
}

/// Eight bits spell a number below 256, and the first four of them count
/// sixteen times what they spell alone.
pub proof fn lemma_two_digits(high: Seq<bool>, low: Seq<bool>)
    requires
        high.len() == 4,
        low.len() == 4,
    ensures
        bits_value(high) < 16,
        bits_value(low) < 16,
        bits_value(high + low) == 16 * bits_value(high) + bits_value(low),
{
    reveal_with_fuel(bits_value, 5);
    let all = high + low;
    assert(all.drop_last() == high + low.drop_last());
    assert(all.drop_last().drop_last() == high + low.drop_last().drop_last());
    assert(all.drop_last().drop_last().drop_last() == high
        + low.drop_last().drop_last().drop_last());
    assert(all.drop_last().drop_last().drop_last().drop_last() == high);
}

/// A failure among the first folders of a row is the failure of the row.
pub proof fn lemma_bits_fail_early(folders: Seq<Folder>, count: int)
    requires
        0 <= count <= folders.len(),
        bits_of(folders.take(count)) is Err,
    ensures
        bits_of(folders) == bits_of(folders.take(count)),
    decreases folders.len(),
{
    if count < folders.len() {
        assert(folders.drop_last().take(count) == folders.take(count));
        lemma_bits_fail_early(folders.drop_last(), count);
    } else {
        assert(folders.take(count) == folders);
    }
}

fn digit_value(folders: &Vec<&Folder>) -> (r: Result<u8, Error>)
    requires
        folders@.len() == 4,
    ensures
        match r {
            Ok(value) => bits_of(targets(folders@)) matches Ok(bits) && bits.len() == 4 && value
                == bits_value(bits) && value < 16,
            Err(e) => bits_of(targets(folders@)) == Err::<Seq<bool>, Error>(e),
        },
{
    let mut value: u8 = 0;
    let mut at: usize = 0;
    let ghost all = targets(folders@);
    let ghost bits = Seq::<bool>::empty();
    while at < 4
        invariant
            at <= 4,
            folders@.len() == 4,
            all == targets(folders@),
            bits_of(all.take(at as int)) == Ok::<Seq<bool>, Error>(bits),
            bits.len() == at,
            value == bits_value(bits),
            at == 0 ==> value == 0,
            at == 1 ==> value < 2,
            at == 2 ==> value < 4,
            at == 3 ==> value < 8,
            at == 4 ==> value < 16,
        decreases 4 - at,
    {
        assert(all.take(at + 1).drop_last() == all.take(at as int));
        assert(all.take(at + 1).last() == *folders@[at as int]);
        let bit: u8 = match is_bit_set(folders[at]) {
            Ok(true) => 1,
            Ok(false) => 0,
            Err(e) => {
                proof {
                    lemma_bits_fail_early(all, at + 1);
                }
                return Err(e);
            },
        };
        proof {
            let longer = bits.push(bit == 1);
            assert(longer.drop_last() == bits);
            bits = longer;
        }
        value = 2 * value + bit;
        at = at + 1;
    }
    assert(all.take(4) == all);
    Ok(value)
}

/// Reads the byte that `folder` stands for.
pub fn get_byte(folder: &Folder) -> (r: Result<u8, Error>)
    ensures
        r == byte_of(*folder),
{
    let digits = sorted_subfolders(folder)?;
    if digits.len() != 2 {
        return Err(input_error(folder.path.clone()));
    }
    let high = sorted_subfolders(digits[0])?;
    let low = sorted_subfolders(digits[1])?;
    if high.len() != 4 {
        return Err(input_error(digits[0].path.clone()));
    }
    if low.len() != 4 {
        return Err(input_error(digits[1].path.clone()));
    }
    let high_value = digit_value(&high)?;
    let low_value = digit_value(&low)?;
    proof {
        lemma_two_digits(bits_of(targets(high@))->Ok_0, bits_of(targets(low@))->Ok_0);
    }
    Ok(16 * high_value + low_value)
}

} // verus!
