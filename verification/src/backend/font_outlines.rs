//! The outlines in the compact format in a font file: whether what its lists claim to hold can be
//! counted. Positions are those in the file; the table stands from `base` up to `end`.

use crate::backend::font_file::{find_table, COMPACT, LONGEST_FILE};
use crate::numbers::{read_long, read_short};
use vstd::prelude::*;

verus! {

/// The operator with the place of the glyphs.
pub const GLYPH_LIST: u64 = 17;

/// The operator with the length and the place of a private dictionary.
pub const PRIVATE: u64 = 18;

/// The operator with the place of the subroutines, as seen from a private dictionary.
pub const SUBROUTINES: u64 = 19;

/// The operator with the place of the list of dictionaries.
pub const DICTIONARIES: u64 = 1236;

// ---- lists ----------------------------------------------------------------------------------------

/// The number of one to four bytes at a position, with its highest byte first.
pub open spec fn offset_at(bytes: Seq<u8>, at: int, size: int) -> int {
    if size == 1 {
        bytes[at] as int
    } else if size == 2 {
        crate::numbers::short_at(bytes, at)
    } else if size == 3 {
        65_536 * bytes[at] + crate::numbers::short_at(bytes, at + 1)
    } else {
        crate::numbers::long_at(bytes, at)
    }
}

/// Where the objects of a list begin.
pub open spec fn objects_start(bytes: Seq<u8>, at: int) -> int {
    at + 3 + (crate::numbers::short_at(bytes, at) + 1) * bytes[at + 2]
}

/// The offset of an object in a list. They are counted from 1, and 0 stands for none.
pub open spec fn object_offset(bytes: Seq<u8>, at: int, i: int) -> int {
    offset_at(bytes, at + 3 + i * bytes[at + 2], bytes[at + 2] as int)
}

/// The offset behind the last object of a list.
pub open spec fn last_offset(bytes: Seq<u8>, at: int) -> int {
    object_offset(bytes, at, crate::numbers::short_at(bytes, at))
}

/// The list holds objects, and the offsets of all of them can be read.
pub open spec fn has_objects(bytes: Seq<u8>, at: int, end: int) -> bool {
    &&& at + 3 <= end
    &&& crate::numbers::short_at(bytes, at) > 0
    &&& 1 <= bytes[at + 2] <= 4
    &&& objects_start(bytes, at) <= end
}

/// A number of 32 bits can tell where the list ends in its table, and where a number behind it ends.
pub open spec fn list_is_counted(bytes: Seq<u8>, base: int, at: int, end: int) -> bool {
    has_objects(bytes, at, end) ==> objects_start(bytes, at) - base + last_offset(bytes, at) + 1
        <= u32::MAX
}

/// Where the list ends, if it can be read.
pub open spec fn list_end(bytes: Seq<u8>, at: int, end: int) -> Option<int> {
    if at + 2 <= end && crate::numbers::short_at(bytes, at) == 0 {
        Some(at + 2)
    } else if !has_objects(bytes, at, end) {
        None
    } else if last_offset(bytes, at) == 0 {
        Some(objects_start(bytes, at))
    } else {
        Some(objects_start(bytes, at) + last_offset(bytes, at) - 1)
    }
}

/// Where an object of a list begins and ends, if it has the object within the table.
pub open spec fn list_object(bytes: Seq<u8>, at: int, end: int, i: int) -> Option<(int, int)> {
    let from = object_offset(bytes, at, i);
    let to = object_offset(bytes, at, i + 1);
    if has_objects(bytes, at, end) && i < crate::numbers::short_at(bytes, at) && 1 <= from <= to
        <= last_offset(bytes, at) && objects_start(bytes, at) + last_offset(bytes, at) - 1 <= end {
        Some((objects_start(bytes, at) + from - 1, objects_start(bytes, at) + to - 1))
    } else {
        None
    }
}

fn read_offset(bytes: &Vec<u8>, at: usize, size: u64) -> (offset: u64)
    requires
        1 <= size <= 4,
        at + size <= bytes@.len(),
    ensures
        offset == offset_at(bytes@, at as int, size as int),
        offset <= 0xffff_ffff,
{
    assert(at + size <= bytes.len());
    if size == 1 {
        bytes[at] as u64
    } else if size == 2 {
        read_short(bytes, at)
    } else if size == 3 {
        65_536 * bytes[at] as u64 + read_short(bytes, at + 1)
    } else {
        read_long(bytes, at)
    }
}

/// What is known of a list with objects.
#[derive(Clone, Copy)]
struct FoundList {
    at: u64,
    count: u64,
    size: u64,
    start: u64,
    last: u64,
}

impl FoundList {
    spec fn is_list(self, bytes: Seq<u8>, at: int, end: int) -> bool {
        &&& has_objects(bytes, at, end)
        &&& self.at == at
        &&& self.count == crate::numbers::short_at(bytes, at)
        &&& 1 <= self.count <= 0xffff
        &&& self.size == bytes[at + 2]
        &&& self.start == objects_start(bytes, at)
        &&& self.last == last_offset(bytes, at)
        &&& self.last <= 0xffff_ffff
    }
}

fn read_object_offset(bytes: &Vec<u8>, list: FoundList, i: u64, end: usize) -> (offset: u64)
    requires
        list.is_list(bytes@, list.at as int, end as int),
        end <= bytes@.len() <= LONGEST_FILE,
        i <= list.count,
    ensures
        offset == object_offset(bytes@, list.at as int, i as int),
        offset <= 0xffff_ffff,
{
    assert(end <= bytes.len());
    assert(i * list.size + list.size <= (list.count + 1) * list.size) by (nonlinear_arith)
        requires
            i <= list.count,
            0 <= list.size,
    ;
    assert(0 <= i * list.size) by (nonlinear_arith);
    let place: u64 = list.at + 3 + i * list.size;
    read_offset(bytes, place as usize, list.size)
}

/// Finds a list with objects.
fn find_list(bytes: &Vec<u8>, at: u64, end: usize) -> (found: Option<FoundList>)
    requires
        end <= bytes@.len() <= LONGEST_FILE,
        at <= 0xffff_ffff_ffff,
    ensures
        match found {
            Some(list) => list.is_list(bytes@, at as int, end as int),
            None => !has_objects(bytes@, at as int, end as int),
        },
{
    assert(end <= bytes.len());
    if at + 3 > end as u64 {
        return None;
    }
    let count: u64 = read_short(bytes, at as usize);
    let size: u64 = bytes[(at + 2) as usize] as u64;
    if count == 0 || size == 0 || size > 4 {
        return None;
    }
    assert((count + 1) * size <= 65_536 * 4) by (nonlinear_arith)
        requires
            0 <= count <= 0xffff,
            0 <= size <= 4,
    ;
    assert(count * size + size == (count + 1) * size) by (nonlinear_arith);
    let start: u64 = at + 3 + (count + 1) * size;
    if start > end as u64 {
        return None;
    }
    let place: u64 = at + 3 + count * size;
    let last: u64 = read_offset(bytes, place as usize, size);
    Some(FoundList { at, count, size, start, last })
}

fn is_counted_list(bytes: &Vec<u8>, base: usize, at: u64, end: usize) -> (counted: bool)
    requires
        base <= end <= bytes@.len() <= LONGEST_FILE,
        base <= at <= 0xffff_ffff_ffff,
    ensures
        counted == list_is_counted(bytes@, base as int, at as int, end as int),
{
    match find_list(bytes, at, end) {
        Some(list) => {
            assert(list.start >= at) by {
                assert(0 <= (list.count + 1) * list.size) by (nonlinear_arith);
            }
            list.start - base as u64 + list.last + 1 <= u32::MAX as u64
        },
        None => true,
    }
}

fn find_list_end(bytes: &Vec<u8>, at: u64, end: usize) -> (found: Option<u64>)
    requires
        end <= bytes@.len() <= LONGEST_FILE,
        at <= 0xffff_ffff_ffff,
    ensures
        match found {
            Some(behind) => list_end(bytes@, at as int, end as int) == Some(behind as int) && at
                <= behind <= 0x2_0000_0000,
            None => list_end(bytes@, at as int, end as int) is None,
        },
{
    assert(end <= bytes.len());
    if at + 2 <= end as u64 && read_short(bytes, at as usize) == 0 {
        return Some(at + 2);
    }
    match find_list(bytes, at, end) {
        Some(list) => {
            assert(list.start >= at) by {
                assert(0 <= (list.count + 1) * list.size) by (nonlinear_arith);
            }
            if list.last == 0 {
                Some(list.start)
            } else {
                Some(list.start + list.last - 1)
            }
        },
        None => None,
    }
}

fn find_object(bytes: &Vec<u8>, list: FoundList, i: u64, end: usize) -> (found: Option<
    (usize, usize),
>)
    requires
        list.is_list(bytes@, list.at as int, end as int),
        end <= bytes@.len() <= LONGEST_FILE,
        i <= list.count,
    ensures
        match found {
            Some((from, to)) => list_object(bytes@, list.at as int, end as int, i as int) == Some(
                (from as int, to as int),
            ) && list.start <= from <= to <= end,
            None => list_object(bytes@, list.at as int, end as int, i as int) is None,
        },
{
    assert(end <= bytes.len());
    if i == list.count {
        return None;
    }
    let from: u64 = read_object_offset(bytes, list, i, end);
    let to: u64 = read_object_offset(bytes, list, i + 1, end);
    if from < 1 || to < from || list.last < to || list.start + list.last - 1 > end as u64 {
        None
    } else {
        Some(((list.start + from - 1) as usize, (list.start + to - 1) as usize))
    }
}

// ---- dictionaries ---------------------------------------------------------------------------------

/// The byte is an operator, or begins one.
pub open spec fn is_operator(byte: u8) -> bool {
    byte <= 27 || byte == 31 || byte == 255
}

/// Where the digits of a number with a fraction end: behind the first byte with a half that ends them.
pub open spec fn digits_end(bytes: Seq<u8>, at: int, end: int) -> int
    decreases end - at,
{
    if at >= end {
        at
    } else if bytes[at] / 16 == 15 || bytes[at] % 16 == 15 {
        at + 1
    } else {
        digits_end(bytes, at + 1, end)
    }
}

/// Where the number that begins at a position ends.
pub open spec fn number_end(bytes: Seq<u8>, at: int, end: int) -> int {
    let byte = bytes[at];
    if byte == 28 {
        at + 3
    } else if byte == 29 {
        at + 5
    } else if byte == 30 {
        digits_end(bytes, at + 1, end)
    } else if byte >= 247 {
        at + 2
    } else {
        at + 1
    }
}

/// The number that begins at a position, if it has no fraction and ends before `end`.
pub open spec fn number_at(bytes: Seq<u8>, at: int, end: int) -> Option<int> {
    let byte = bytes[at];
    if byte == 30 || number_end(bytes, at, end) > end {
        None
    } else if byte == 28 {
        let n = crate::numbers::short_at(bytes, at + 1);
        Some(
            if n < 0x8000 {
                n
            } else {
                n - 0x1_0000
            },
        )
    } else if byte == 29 {
        let n = crate::numbers::long_at(bytes, at + 1);
        Some(
            if n < 0x8000_0000 {
                n
            } else {
                n - 0x1_0000_0000
            },
        )
    } else if byte <= 246 {
        Some(byte - 139)
    } else if byte <= 250 {
        Some((byte - 247) * 256 + bytes[at + 1] + 108)
    } else {
        Some(-(byte - 251) * 256 - bytes[at + 1] - 108)
    }
}

/// An entry of a dictionary: an operator, and the numbers before it. An operator of two bytes is told
/// by 1200 and its second byte. The numbers are missing where one of them has a fraction.
pub struct Entry {
    pub operator: int,
    pub operands: Option<Seq<int>>,
}

/// The numbers with another one behind them.
pub open spec fn with_number(operands: Option<Seq<int>>, number: Option<int>) -> Option<Seq<int>> {
    match (operands, number) {
        (Some(operands), Some(number)) => Some(operands.push(number)),
        _ => None,
    }
}

/// The entries of a dictionary that stand from a position up to its end. `operands` are the numbers
/// before them.
pub open spec fn entries_from(bytes: Seq<u8>, at: int, end: int, operands: Option<Seq<int>>) -> Seq<
    Entry,
>
    decreases end - at,
{
    if at >= end {
        Seq::empty()
    } else if !is_operator(bytes[at]) {
        let behind = number_end(bytes, at, end);
        if at < behind < end {
            entries_from(bytes, behind, end, with_number(operands, number_at(bytes, at, end)))
        } else {
            Seq::empty()
        }
    } else if bytes[at] != 12 {
        seq![Entry { operator: bytes[at] as int, operands }] + entries_from(
            bytes,
            at + 1,
            end,
            Some(Seq::empty()),
        )
    } else if at + 1 < end {
        seq![Entry { operator: 1200 + bytes[at + 1], operands }] + entries_from(
            bytes,
            at + 2,
            end,
            Some(Seq::empty()),
        )
    } else {
        Seq::empty()
    }
}

/// The entries of a dictionary.
pub open spec fn entries(bytes: Seq<u8>, from: int, to: int) -> Seq<Entry> {
    entries_from(bytes, from, to, Some(Seq::empty()))
}

/// An entry of a dictionary as it was read.
struct FoundEntry {
    operator: u64,
    operands: Option<Vec<i64>>,
}

spec fn numbers_of(operands: Seq<i64>) -> Seq<int> {
    Seq::new(operands.len(), |i: int| operands[i] as int)
}

spec fn operands_of(operands: Option<Vec<i64>>) -> Option<Seq<int>> {
    match operands {
        Some(operands) => Some(numbers_of(operands@)),
        None => None,
    }
}

impl FoundEntry {
    spec fn entry(self) -> Entry {
        Entry { operator: self.operator as int, operands: operands_of(self.operands) }
    }

    spec fn is_small(self) -> bool {
        self.operands matches Some(operands) ==> forall|i: int|
            0 <= i < operands@.len() ==> i32::MIN <= #[trigger] operands@[i] <= i32::MAX
    }
}

spec fn found_entries(found: Seq<FoundEntry>) -> Seq<Entry> {
    Seq::new(found.len(), |i: int| found[i].entry())
}

fn find_digits_end(bytes: &Vec<u8>, at: usize, end: usize) -> (behind: usize)
    requires
        at <= end <= bytes@.len(),
    ensures
        behind == digits_end(bytes@, at as int, end as int),
        at <= behind <= end,
{
    assert(end <= bytes.len());
    let mut p: usize = at;
    while p < end
        invariant
            at <= p <= end <= bytes@.len(),
            digits_end(bytes@, at as int, end as int) == digits_end(bytes@, p as int, end as int),
        decreases end - p,
    {
        if bytes[p] / 16 == 15 || bytes[p] % 16 == 15 {
            return p + 1;
        }
        p += 1;
    }
    p
}

/// Reads the number that begins at a position, and where it ends.
fn read_number(bytes: &Vec<u8>, at: usize, end: usize) -> (read: (Option<i64>, u64))
    requires
        at < end <= bytes@.len() <= LONGEST_FILE,
        !is_operator(bytes@[at as int]),
    ensures
        read.1 == number_end(bytes@, at as int, end as int),
        at < read.1 <= at + 5 || read.1 <= end,
        at < read.1,
        match read.0 {
            Some(n) => number_at(bytes@, at as int, end as int) == Some(n as int) && i32::MIN <= n
                <= i32::MAX,
            None => number_at(bytes@, at as int, end as int) is None,
        },
{
    assert(end <= bytes.len());
    let byte: u8 = bytes[at];
    let left: usize = end - at;
    if byte == 28 {
        if left < 3 {
            return (None, at as u64 + 3);
        }
        let n: i64 = read_short(bytes, at + 1) as i64;
        let signed: i64 = if n < 0x8000 {
            n
        } else {
            n - 0x1_0000
        };
        (Some(signed), at as u64 + 3)
    } else if byte == 29 {
        if left < 5 {
            return (None, at as u64 + 5);
        }
        let n: i64 = read_long(bytes, at + 1) as i64;
        let signed: i64 = if n < 0x8000_0000 {
            n
        } else {
            n - 0x1_0000_0000
        };
        (Some(signed), at as u64 + 5)
    } else if byte == 30 {
        (None, find_digits_end(bytes, at + 1, end) as u64)
    } else if byte <= 246 {
        (Some(byte as i64 - 139), at as u64 + 1)
    } else if left < 2 {
        (None, at as u64 + 2)
    } else if byte <= 250 {
        (Some((byte as i64 - 247) * 256 + bytes[at + 1] as i64 + 108), at as u64 + 2)
    } else {
        (Some(-(byte as i64 - 251) * 256 - bytes[at + 1] as i64 - 108), at as u64 + 2)
    }
}

/// Puts a number behind others.
fn push_number(operands: Option<Vec<i64>>, number: Option<i64>) -> (pushed: Option<Vec<i64>>)
    ensures
        operands_of(pushed) == with_number(
            operands_of(operands),
            match number {
                Some(n) => Some(n as int),
                None => None,
            },
        ),
        match (operands, number) {
            (Some(before), Some(n)) => pushed is Some && pushed->0@ == before@.push(n),
            _ => pushed is None,
        },
{
    match (operands, number) {
        (Some(operands), Some(number)) => {
            let mut pushed = operands;
            let ghost before = pushed@;
            pushed.push(number);
            assert(numbers_of(pushed@) =~= numbers_of(before).push(number as int));
            Some(pushed)
        },
        _ => None,
    }
}

/// Reads the entries of a dictionary.
fn read_entries(bytes: &Vec<u8>, from: usize, to: usize) -> (found: Vec<FoundEntry>)
    requires
        from <= to <= bytes@.len() <= LONGEST_FILE,
    ensures
        found_entries(found@) == entries(bytes@, from as int, to as int),
        forall|i: int| 0 <= i < found@.len() ==> (#[trigger] found@[i]).is_small(),
{
    let mut found: Vec<FoundEntry> = Vec::new();
    let mut operands: Option<Vec<i64>> = Some(Vec::new());
    let mut at: u64 = from as u64;
    let end: u64 = to as u64;
    let ghost all = entries(bytes@, from as int, to as int);
    proof {
        assert(operands_of(operands) == Some(Seq::<int>::empty())) by {
            assert(numbers_of(operands->0@) =~= Seq::<int>::empty());
        }
        assert(all =~= found_entries(found@) + entries_from(
            bytes@,
            at as int,
            end as int,
            operands_of(operands),
        ));
    }
    while at < end
        invariant
            from <= at,
            at <= end + 5,
            end == to,
            to <= bytes@.len() <= LONGEST_FILE,
            all == entries(bytes@, from as int, to as int),
            all == found_entries(found@) + entries_from(
                bytes@,
                at as int,
                end as int,
                operands_of(operands),
            ),
            forall|i: int| 0 <= i < found@.len() ==> (#[trigger] found@[i]).is_small(),
            operands matches Some(numbers) ==> forall|i: int|
                0 <= i < numbers@.len() ==> i32::MIN <= #[trigger] numbers@[i] <= i32::MAX,
        decreases end + 5 - at,
    {
        assert(to <= bytes.len());
        let byte: u8 = bytes[at as usize];
        let operator: bool = byte <= 27 || byte == 31 || byte == 255;
        if !operator {
            let (number, behind): (Option<i64>, u64) = read_number(bytes, at as usize, to);
            operands = push_number(operands, number);
            at = behind;
            continue;
        }
        if byte == 12 && at + 1 >= end {
            assert(all =~= found_entries(found@));
            return found;
        }
        let mut told: u64 = byte as u64;
        let mut behind: u64 = at + 1;
        if byte == 12 {
            told = 1200 + bytes[(at + 1) as usize] as u64;
            behind = at + 2;
        }
        let ghost before = found@;
        let ghost rest = entries_from(bytes@, behind as int, end as int, Some(Seq::empty()));
        let entry = FoundEntry { operator: told, operands };
        let ghost seen = entry.entry();
        found.push(entry);
        operands = Some(Vec::new());
        at = behind;
        proof {
            assert(operands_of(operands) == Some(Seq::<int>::empty())) by {
                assert(numbers_of(operands->0@) =~= Seq::<int>::empty());
            }
            assert(found_entries(found@) =~= found_entries(before).push(seen));
            assert(found_entries(before) + (seq![seen] + rest) =~= found_entries(before).push(seen)
                + rest);
        }
    }
    assert(all =~= found_entries(found@));
    found
}

// ---- what the dictionaries point at ---------------------------------------------------------------

/// The list that the entry of a dictionary points at can be counted. The entry points from `origin`,
/// with one number that is not negative; another one points at nothing.
pub open spec fn place_is_counted(bytes: Seq<u8>, base: int, end: int, origin: int, entry: Entry) -> bool {
    match entry.operands {
        Some(operands) => operands.len() == 1 && operands[0] >= 0 ==> list_is_counted(
            bytes,
            base,
            origin + operands[0],
            end,
        ),
        None => false,
    }
}

/// The subroutines of the private dictionary that an entry points at can be counted. The entry has
/// the length and the place of the dictionary, and neither is negative; another one points at nothing.
pub open spec fn private_is_counted(bytes: Seq<u8>, base: int, end: int, entry: Entry) -> bool {
    match entry.operands {
        Some(operands) => operands.len() == 2 && operands[0] >= 0 && operands[1] >= 0 && base
            + operands[1] + operands[0] <= end ==> {
            let from = base + operands[1];
            let found = entries(bytes, from, from + operands[0]);
            forall|i: int|
                0 <= i < found.len() && (#[trigger] found[i]).operator == SUBROUTINES
                    ==> place_is_counted(bytes, base, end, from, found[i])
        },
        None => false,
    }
}

/// The private dictionaries that a dictionary points at have subroutines that can be counted.
pub open spec fn privates_are_counted(bytes: Seq<u8>, base: int, end: int, from: int, to: int) -> bool {
    let found = entries(bytes, from, to);
    forall|i: int|
        0 <= i < found.len() && (#[trigger] found[i]).operator == PRIVATE ==> private_is_counted(
            bytes,
            base,
            end,
            found[i],
        )
}

/// The list of dictionaries that an entry points at can be counted, and so can what each of its
/// dictionaries points at.
pub open spec fn dictionaries_are_counted(bytes: Seq<u8>, base: int, end: int, entry: Entry) -> bool {
    &&& place_is_counted(bytes, base, end, base, entry)
    &&& entry.operands matches Some(operands) && (operands.len() == 1 && operands[0] >= 0
        ==> forall|i: int|
        0 <= i ==> ((#[trigger] list_object(bytes, base + operands[0], end, i)) matches Some(
            (from, to),
        ) ==> privates_are_counted(bytes, base, end, from, to)))
}

/// All that the first dictionary of the table points at can be counted.
pub open spec fn top_is_counted(bytes: Seq<u8>, base: int, end: int, from: int, to: int) -> bool {
    let found = entries(bytes, from, to);
    &&& privates_are_counted(bytes, base, end, from, to)
    &&& forall|i: int|
        0 <= i < found.len() && (#[trigger] found[i]).operator == GLYPH_LIST ==> place_is_counted(
            bytes,
            base,
            end,
            base,
            found[i],
        )
    &&& forall|i: int|
        0 <= i < found.len() && (#[trigger] found[i]).operator == DICTIONARIES
            ==> dictionaries_are_counted(bytes, base, end, found[i])
}

/// Where the first list of the table stands: behind the header, whose length its third byte tells.
pub open spec fn first_list(bytes: Seq<u8>, base: int) -> int {
    base + crate::geometry::larger(4, bytes[base + 2] as int)
}

/// Everything in the table can be counted: the list of names, the list with the first dictionary, what
/// that dictionary points at, the texts, and the shared subroutines. Each list stands behind the
/// list before it, and a list that cannot be read ends them.
pub open spec fn table_is_counted(bytes: Seq<u8>, base: int, end: int) -> bool {
    base + 3 <= end && bytes[base] == 1 ==> {
        let names = first_list(bytes, base);
        &&& list_is_counted(bytes, base, names, end)
        &&& match list_end(bytes, names, end) {
            Some(tops) => {
                &&& list_is_counted(bytes, base, tops, end)
                &&& match list_object(bytes, tops, end, 0) {
                    Some((from, to)) => top_is_counted(bytes, base, end, from, to),
                    None => true,
                }
                &&& match list_end(bytes, tops, end) {
                    Some(texts) => {
                        &&& list_is_counted(bytes, base, texts, end)
                        &&& match list_end(bytes, texts, end) {
                            Some(shared) => list_is_counted(bytes, base, shared, end),
                            None => true,
                        }
                    },
                    None => true,
                }
            },
            None => true,
        }
    }
}

/// Everything in the compact outlines of a face can be counted, if it has them.
pub open spec fn outlines_are_counted(bytes: Seq<u8>, collection_index: u32) -> bool {
    match crate::backend::font_file::face_table(bytes, collection_index as int, COMPACT) {
        Some((start, end)) => table_is_counted(bytes, start, end),
        None => true,
    }
}

fn is_counted_place(bytes: &Vec<u8>, base: usize, end: usize, origin: u64, entry: &FoundEntry) -> (counted:
    bool)
    requires
        base <= end <= bytes@.len() <= LONGEST_FILE,
        base <= origin <= end,
        entry.is_small(),
    ensures
        counted == place_is_counted(
            bytes@,
            base as int,
            end as int,
            origin as int,
            entry.entry(),
        ),
{
    assert(end <= bytes.len());
    match &entry.operands {
        Some(operands) => if operands.len() == 1 && operands[0] >= 0 {
            is_counted_list(bytes, base, origin + operands[0] as u64, end)
        } else {
            true
        },
        None => false,
    }
}

fn is_counted_private(bytes: &Vec<u8>, base: usize, end: usize, entry: &FoundEntry) -> (counted: bool)
    requires
        base <= end <= bytes@.len() <= LONGEST_FILE,
        entry.is_small(),
    ensures
        counted == private_is_counted(bytes@, base as int, end as int, entry.entry()),
{
    assert(end <= bytes.len());
    let operands = match &entry.operands {
        Some(operands) => operands,
        None => return false,
    };
    if operands.len() != 2 || operands[0] < 0 || operands[1] < 0 {
        return true;
    }
    let from: u64 = base as u64 + operands[1] as u64;
    let to: u64 = from + operands[0] as u64;
    if to > end as u64 {
        return true;
    }
    let found = read_entries(bytes, from as usize, to as usize);
    let ghost all = found_entries(found@);
    assert(entry.entry().operands == Some(seq![to - from, from - base])) by {
        assert(numbers_of(operands@) =~= seq![to - from, from - base]);
    }
    let mut i: usize = 0;
    while i < found.len()
        invariant
            i <= found@.len(),
            base <= from <= end <= bytes@.len() <= LONGEST_FILE,
            all == found_entries(found@),
            all == entries(bytes@, from as int, to as int),
            entry.entry().operands == Some(seq![to - from, from - base]),
            to <= end,
            from <= to,
            forall|k: int| 0 <= k < found@.len() ==> (#[trigger] found@[k]).is_small(),
            forall|k: int|
                0 <= k < i && (#[trigger] all[k]).operator == SUBROUTINES ==> place_is_counted(
                    bytes@,
                    base as int,
                    end as int,
                    from as int,
                    all[k],
                ),
        decreases found@.len() - i,
    {
        assert(all[i as int] == found@[i as int].entry());
        if found[i].operator == SUBROUTINES && !is_counted_place(bytes, base, end, from, &found[i]) {
            return false;
        }
        i += 1;
    }
    true
}

fn are_counted_privates(bytes: &Vec<u8>, base: usize, end: usize, from: usize, to: usize) -> (counted:
    bool)
    requires
        base <= end <= bytes@.len() <= LONGEST_FILE,
        from <= to <= end,
    ensures
        counted == privates_are_counted(
            bytes@,
            base as int,
            end as int,
            from as int,
            to as int,
        ),
{
    let found = read_entries(bytes, from, to);
    let ghost all = found_entries(found@);
    let mut i: usize = 0;
    while i < found.len()
        invariant
            i <= found@.len(),
            base <= end <= bytes@.len() <= LONGEST_FILE,
            all == found_entries(found@),
            all == entries(bytes@, from as int, to as int),
            forall|k: int| 0 <= k < found@.len() ==> (#[trigger] found@[k]).is_small(),
            forall|k: int|
                0 <= k < i && (#[trigger] all[k]).operator == PRIVATE ==> private_is_counted(
                    bytes@,
                    base as int,
                    end as int,
                    all[k],
                ),
        decreases found@.len() - i,
    {
        assert(all[i as int] == found@[i as int].entry());
        if found[i].operator == PRIVATE && !is_counted_private(bytes, base, end, &found[i]) {
            return false;
        }
        i += 1;
    }
    true
}

fn are_counted_dictionaries(bytes: &Vec<u8>, base: usize, end: usize, entry: &FoundEntry) -> (counted:
    bool)
    requires
        base <= end <= bytes@.len() <= LONGEST_FILE,
        entry.is_small(),
    ensures
        counted == dictionaries_are_counted(bytes@, base as int, end as int, entry.entry()),
{
    if !is_counted_place(bytes, base, end, base as u64, entry) {
        return false;
    }
    assert(end <= bytes.len());
    let operands = match &entry.operands {
        Some(operands) => operands,
        None => return false,
    };
    if operands.len() != 1 || operands[0] < 0 {
        return true;
    }
    let at: u64 = base as u64 + operands[0] as u64;
    let list = match find_list(bytes, at, end) {
        Some(list) => list,
        None => return true,
    };
    assert(entry.entry().operands == Some(seq![at - base])) by {
        assert(numbers_of(operands@) =~= seq![at - base]);
    }
    let mut i: u64 = 0;
    while i < list.count
        invariant
            i <= list.count <= 0xffff,
            list.is_list(bytes@, at as int, end as int),
            base <= end <= bytes@.len() <= LONGEST_FILE,
            entry.entry().operands == Some(seq![at - base]),
            at >= base,
            forall|k: int|
                0 <= k < i ==> ((#[trigger] list_object(bytes@, at as int, end as int, k)) matches Some(
                    (from, to),
                ) ==> privates_are_counted(bytes@, base as int, end as int, from, to)),
        decreases list.count - i,
    {
        let object = find_object(bytes, list, i, end);
        if let Some((from, to)) = object {
            if !are_counted_privates(bytes, base, end, from, to) {
                assert(list_object(bytes@, at as int, end as int, i as int) is Some);
                return false;
            }
        }
        i += 1;
    }
    true
}

fn is_counted_top(bytes: &Vec<u8>, base: usize, end: usize, from: usize, to: usize) -> (counted: bool)
    requires
        base <= end <= bytes@.len() <= LONGEST_FILE,
        from <= to <= end,
    ensures
        counted == top_is_counted(bytes@, base as int, end as int, from as int, to as int),
{
    if !are_counted_privates(bytes, base, end, from, to) {
        return false;
    }
    let found = read_entries(bytes, from, to);
    let ghost all = found_entries(found@);
    let mut i: usize = 0;
    while i < found.len()
        invariant
            i <= found@.len(),
            base <= end <= bytes@.len() <= LONGEST_FILE,
            all == found_entries(found@),
            all == entries(bytes@, from as int, to as int),
            forall|k: int| 0 <= k < found@.len() ==> (#[trigger] found@[k]).is_small(),
            forall|k: int|
                0 <= k < i && (#[trigger] all[k]).operator == GLYPH_LIST ==> place_is_counted(
                    bytes@,
                    base as int,
                    end as int,
                    base as int,
                    all[k],
                ),
            forall|k: int|
                0 <= k < i && (#[trigger] all[k]).operator == DICTIONARIES
                    ==> dictionaries_are_counted(bytes@, base as int, end as int, all[k]),
        decreases found@.len() - i,
    {
        assert(all[i as int] == found@[i as int].entry());
        if found[i].operator == GLYPH_LIST && !is_counted_place(
            bytes,
            base,
            end,
            base as u64,
            &found[i],
        ) {
            return false;
        }
        if found[i].operator == DICTIONARIES && !are_counted_dictionaries(
            bytes,
            base,
            end,
            &found[i],
        ) {
            return false;
        }
        i += 1;
    }
    true
}

fn is_counted_table(bytes: &Vec<u8>, base: usize, end: usize) -> (counted: bool)
    requires
        base <= end <= bytes@.len() <= LONGEST_FILE,
    ensures
        counted == table_is_counted(bytes@, base as int, end as int),
{
    assert(end <= bytes.len());
    if end - base < 3 || bytes[base] != 1 {
        return true;
    }
    let header: u64 = bytes[base + 2] as u64;
    let names: u64 = base as u64 + if header > 4 {
        header
    } else {
        4
    };
    if !is_counted_list(bytes, base, names, end) {
        return false;
    }
    let tops: u64 = match find_list_end(bytes, names, end) {
        Some(behind) => behind,
        None => return true,
    };
    if !is_counted_list(bytes, base, tops, end) {
        return false;
    }
    if let Some(list) = find_list(bytes, tops, end) {
        if let Some((from, to)) = find_object(bytes, list, 0, end) {
            if !is_counted_top(bytes, base, end, from, to) {
                return false;
            }
        }
    }
    let texts: u64 = match find_list_end(bytes, tops, end) {
        Some(behind) => behind,
        None => return true,
    };
    if !is_counted_list(bytes, base, texts, end) {
        return false;
    }
    match find_list_end(bytes, texts, end) {
        Some(shared) => is_counted_list(bytes, base, shared, end),
        None => true,
    }
}

/// Whether everything in the compact outlines of a face can be counted, if it has them.
pub fn has_counted_outlines(bytes: &Vec<u8>, collection_index: u32) -> (counted: bool)
    requires
        bytes@.len() <= LONGEST_FILE,
    ensures
        counted == outlines_are_counted(bytes@, collection_index),
{
    match find_table(bytes, collection_index, COMPACT) {
        Some((start, end)) => is_counted_table(bytes, start, end),
        None => true,
    }
}

} // verus!
