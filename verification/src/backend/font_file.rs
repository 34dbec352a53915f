//! What of a font file is looked at before it is read: where the tables of a face stand, which of them
//! are read, and whether what they claim to hold can be counted.

use crate::backend::font_names::has_whole_names;
use crate::backend::font_outlines::has_counted_outlines;
use crate::numbers::{read_long, read_short};
use vstd::prelude::*;

verus! {

/// How a file begins that holds several faces: `ttcf`.
pub const COLLECTION: u64 = 0x7474_6366;

/// The tag of the outlines in the compact format: `CFF `.
pub const COMPACT: u64 = 0x4346_4620;

/// The tag of the outlines in the second compact format: `CFF2`.
pub const SECOND_COMPACT: u64 = 0x4346_4632;

/// The tag of the measures for other systems: `OS/2`.
pub const MEASURES: u64 = 0x4f53_2f32;

/// The tag of the table from characters to glyphs: `cmap`.
pub const CHARACTERS: u64 = 0x636d_6170;

/// The tag of the outlines: `glyf`.
pub const GLYPHS: u64 = 0x676c_7966;

/// The tag of the header: `head`.
pub const HEADER: u64 = 0x6865_6164;

/// The tag of the measures of a line: `hhea`.
pub const LINE: u64 = 0x6868_6561;

/// The tag of the widths of the glyphs: `hmtx`.
pub const WIDTHS: u64 = 0x686d_7478;

/// The tag of the distances between pairs of glyphs: `kern`.
pub const PAIRS: u64 = 0x6b65_726e;

/// The tag of the list of where the outlines stand: `loca`.
pub const PLACES: u64 = 0x6c6f_6361;

/// The tag of the number of glyphs: `maxp`.
pub const SIZES: u64 = 0x6d61_7870;

/// The tag of the table with the names: `name`.
pub const NAMES: u64 = 0x6e61_6d65;

/// The tag of the measures of a column: `vhea`.
pub const COLUMN: u64 = 0x7668_6561;

/// The tag of the heights of the glyphs: `vmtx`.
pub const HEIGHTS: u64 = 0x766d_7478;

/// The longest file that is read. What is counted in a file of this length by numbers of 16 bits ends
/// where a number of 32 bits can tell.
pub const LONGEST_FILE: u64 = 0xff00_0000;

/// The number begins a single face.
pub open spec fn is_face(magic: int) -> bool {
    magic == 0x0001_0000 || magic == 0x7472_7565 || magic == 0x4f54_544f
}

/// The list of faces in a file with several faces ends where a number of 32 bits can tell.
pub open spec fn faces_are_countable(bytes: Seq<u8>) -> bool {
    bytes.len() >= 12 && crate::numbers::long_at(bytes, 0) == COLLECTION ==> 12 + 4
        * crate::numbers::long_at(bytes, 8) <= u32::MAX
}

/// Whether the list of faces in a file with several faces ends where a number of 32 bits can tell.
pub fn has_countable_faces(bytes: &Vec<u8>) -> (countable: bool)
    ensures
        countable == faces_are_countable(bytes@),
{
    bytes.len() < 12 || read_long(bytes, 0) != COLLECTION || 12 + 4 * read_long(bytes, 8)
        <= u32::MAX as u64
}

/// Where the list of tables of a face stands, behind the number that begins the face. A file with
/// several faces lists where each of them begins; another one holds the face 0 alone.
pub open spec fn directory(bytes: Seq<u8>, collection_index: int) -> Option<int> {
    if bytes.len() < 4 {
        None
    } else if crate::numbers::long_at(bytes, 0) == COLLECTION {
        let faces = crate::numbers::long_at(bytes, 8);
        let face = crate::numbers::long_at(bytes, 12 + 4 * collection_index);
        if bytes.len() >= 12 && 12 + 4 * faces <= bytes.len() && collection_index < faces && 12 + 4
            * faces <= face && face + 4 <= bytes.len() && is_face(
            crate::numbers::long_at(bytes, face),
        ) {
            Some(face + 4)
        } else {
            None
        }
    } else if is_face(crate::numbers::long_at(bytes, 0)) && collection_index == 0 {
        Some(4)
    } else {
        None
    }
}

/// The list of tables ends within the file.
pub open spec fn has_tables(bytes: Seq<u8>, directory: int) -> bool {
    directory + 2 <= bytes.len() && directory + 8 + 16 * crate::numbers::short_at(bytes, directory)
        <= bytes.len()
}

/// Where the list of tables of a face stands, and how many tables it lists, if it ends within the
/// file.
pub open spec fn face_tables(bytes: Seq<u8>, collection_index: int) -> Option<(int, int)> {
    match directory(bytes, collection_index) {
        Some(directory) => if has_tables(bytes, directory) {
            Some((directory, crate::numbers::short_at(bytes, directory)))
        } else {
            None
        },
        None => None,
    }
}

/// The tag of a table of the list.
pub open spec fn tag_at(bytes: Seq<u8>, directory: int, i: int) -> int {
    crate::numbers::long_at(bytes, directory + 8 + 16 * i)
}

/// Where a table of the list begins in the file.
pub open spec fn table_start(bytes: Seq<u8>, directory: int, i: int) -> int {
    crate::numbers::long_at(bytes, directory + 8 + 16 * i + 8)
}

/// Where a table of the list ends in the file.
pub open spec fn table_end(bytes: Seq<u8>, directory: int, i: int) -> int {
    table_start(bytes, directory, i) + crate::numbers::long_at(bytes, directory + 8 + 16 * i + 12)
}

/// The last of the first `count` tables that has the tag, and whose end can be counted.
pub open spec fn last_table(bytes: Seq<u8>, directory: int, count: int, tag: u64) -> Option<int>
    decreases count,
{
    if count <= 0 {
        None
    } else if tag_at(bytes, directory, count - 1) == tag && table_end(bytes, directory, count - 1)
        <= usize::MAX {
        Some(count - 1)
    } else {
        last_table(bytes, directory, count - 1, tag)
    }
}

/// Where the table of a face with a tag begins and ends, if it has one within the file.
pub open spec fn face_table(bytes: Seq<u8>, collection_index: int, tag: u64) -> Option<(int, int)> {
    match face_tables(bytes, collection_index) {
        Some((directory, count)) => match last_table(bytes, directory, count, tag) {
            Some(i) => if table_end(bytes, directory, i) <= bytes.len() {
                Some((table_start(bytes, directory, i), table_end(bytes, directory, i)))
            } else {
                None
            },
            None => None,
        },
        None => None,
    }
}

fn begins_face(magic: u64) -> (face: bool)
    ensures
        face == is_face(magic as int),
{
    magic == 0x0001_0000 || magic == 0x7472_7565 || magic == 0x4f54_544f
}

fn find_directory(bytes: &Vec<u8>, collection_index: u32) -> (found: Option<usize>)
    ensures
        match found {
            Some(at) => directory(bytes@, collection_index as int) == Some(at as int) && at
                <= bytes@.len(),
            None => directory(bytes@, collection_index as int) is None,
        },
{
    let length: u64 = bytes.len() as u64;
    if length < 4 {
        return None;
    }
    let magic: u64 = read_long(bytes, 0);
    if magic == COLLECTION {
        if length < 12 {
            return None;
        }
        let faces: u64 = read_long(bytes, 8);
        let index: u64 = collection_index as u64;
        if 12 + 4 * faces > length || index >= faces {
            return None;
        }
        let face: u64 = read_long(bytes, (12 + 4 * index) as usize);
        if face < 12 + 4 * faces || face + 4 > length || !begins_face(
            read_long(bytes, face as usize),
        ) {
            return None;
        }
        Some((face + 4) as usize)
    } else if begins_face(magic) && collection_index == 0 {
        Some(4)
    } else {
        None
    }
}

/// Finds the list of tables of a face, as where it stands and how many tables it lists.
fn find_tables(bytes: &Vec<u8>, collection_index: u32) -> (found: Option<(usize, u64)>)
    ensures
        match found {
            Some((at, count)) => face_tables(bytes@, collection_index as int) == Some(
                (at as int, count as int),
            ) && count <= 0xffff && at >= 4 && at + 8 + 16 * count <= bytes@.len(),
            None => face_tables(bytes@, collection_index as int) is None,
        },
{
    let at: usize = match find_directory(bytes, collection_index) {
        Some(at) => at,
        None => return None,
    };
    let length: u64 = bytes.len() as u64;
    if length - (at as u64) < 2 {
        return None;
    }
    let count: u64 = read_short(bytes, at);
    if length - (at as u64) < 8 + 16 * count {
        return None;
    }
    Some((at, count))
}

/// Finds the table of a face with a tag, as where it begins and ends.
pub fn find_table(bytes: &Vec<u8>, collection_index: u32, tag: u64) -> (found: Option<
    (usize, usize),
>)
    ensures
        match found {
            Some((start, end)) => start <= end <= bytes@.len() && face_table(
                bytes@,
                collection_index as int,
                tag,
            ) == Some((start as int, end as int)),
            None => face_table(bytes@, collection_index as int, tag) is None,
        },
{
    let (at, count): (usize, u64) = match find_tables(bytes, collection_index) {
        Some(tables) => tables,
        None => return None,
    };
    let length: u64 = bytes.len() as u64;
    let mut found: Option<(u64, u64)> = None;
    let mut i: u64 = 0;
    while i < count
        invariant
            i <= count <= 0xffff,
            at + 8 + 16 * count <= bytes@.len(),
            length == bytes@.len(),
            match found {
                Some((start, end)) => last_table(bytes@, at as int, i as int, tag) matches Some(k)
                    && table_start(bytes@, at as int, k) == start && table_end(
                    bytes@,
                    at as int,
                    k,
                ) == end && start <= end,
                None => last_table(bytes@, at as int, i as int, tag) is None,
            },
        decreases count - i,
    {
        assert(bytes.len() == length);
        let record: usize = at + (8 + 16 * i) as usize;
        if read_long(bytes, record) == tag {
            let start: u64 = read_long(bytes, record + 8);
            let end: u64 = start + read_long(bytes, record + 12);
            if end <= usize::MAX as u64 {
                found = Some((start, end));
            }
        }
        i += 1;
    }
    match found {
        Some((start, end)) => if end <= length {
            Some((start as usize, end as usize))
        } else {
            None
        },
        None => None,
    }
}

// ---- the tables that are read ---------------------------------------------------------------------

/// The table is read. Every other table is about more than the plain outlines of the characters:
/// pictures, colours, variations of the outlines, and glyphs that stand for others.
pub open spec fn is_read(tag: int) -> bool {
    ||| tag == COMPACT
    ||| tag == MEASURES
    ||| tag == CHARACTERS
    ||| tag == GLYPHS
    ||| tag == HEADER
    ||| tag == LINE
    ||| tag == WIDTHS
    ||| tag == PAIRS
    ||| tag == PLACES
    ||| tag == SIZES
    ||| tag == NAMES
    ||| tag == COLUMN
    ||| tag == HEIGHTS
}

fn reads(tag: u64) -> (read: bool)
    ensures
        read == is_read(tag as int),
{
    tag == COMPACT || tag == MEASURES || tag == CHARACTERS || tag == GLYPHS || tag == HEADER || tag
        == LINE || tag == WIDTHS || tag == PAIRS || tag == PLACES || tag == SIZES || tag == NAMES
        || tag == COLUMN || tag == HEIGHTS
}

/// The byte ends the tag of a table that is not read. `directory` is where the list of tables
/// stands, and `count` how many of its tables are looked at.
pub open spec fn ends_hidden_tag(bytes: Seq<u8>, directory: int, count: int, p: int) -> bool {
    let behind = p - (directory + 8);
    &&& 0 <= behind < 16 * count
    &&& behind % 16 == 3
    &&& !is_read(tag_at(bytes, directory, behind / 16))
}

/// The bytes with the first `count` tables of a list hidden, as far as they are not read: their tags
/// end in 0xff, which ends no tag that is known.
pub open spec fn hidden(bytes: Seq<u8>, directory: int, count: int) -> Seq<u8> {
    Seq::new(
        bytes.len(),
        |p: int|
            if ends_hidden_tag(bytes, directory, count, p) {
                0xff
            } else {
                bytes[p]
            },
    )
}

/// The bytes of a file with the tables of a face hidden that are not read.
pub open spec fn shown(bytes: Seq<u8>, collection_index: u32) -> Seq<u8> {
    match face_tables(bytes, collection_index as int) {
        Some((directory, count)) => hidden(bytes, directory, count),
        None => bytes,
    }
}

proof fn lemma_hide_one(bytes: Seq<u8>, directory: int, i: int)
    requires
        0 <= directory,
        0 <= i,
        directory + 8 + 16 * (i + 1) <= bytes.len(),
    ensures
        hidden(bytes, directory, i + 1) == if is_read(tag_at(bytes, directory, i)) {
            hidden(bytes, directory, i)
        } else {
            hidden(bytes, directory, i).update(directory + 8 + 16 * i + 3, 0xff)
        },
        forall|k: int|
            0 <= k < 4 ==> hidden(bytes, directory, i)[directory + 8 + 16 * i + k]
                == #[trigger] bytes[directory + 8 + 16 * i + k],
{
    let before = hidden(bytes, directory, i);
    let one = directory + 8 + 16 * i + 3;
    assert forall|p: int| 0 <= p < bytes.len() implies ends_hidden_tag(bytes, directory, i + 1, p)
        == (ends_hidden_tag(bytes, directory, i, p) || p == one && !is_read(
        tag_at(bytes, directory, i),
    )) by {
        let behind = p - (directory + 8);
        if 16 * i <= behind < 16 * i + 16 && behind % 16 == 3 {
            assert(behind / 16 == i);
            assert(p == one);
        }
        if p == one {
            assert(behind / 16 == i && behind % 16 == 3);
        }
    }
    let after = if is_read(tag_at(bytes, directory, i)) {
        before
    } else {
        before.update(one, 0xff)
    };
    assert(hidden(bytes, directory, i + 1) =~= after);
}

/// Hides the tables of a face that are not read.
pub fn hide_tables(bytes: &mut Vec<u8>, collection_index: u32)
    ensures
        final(bytes)@ == shown(old(bytes)@, collection_index),
{
    let ghost before = bytes@;
    let (at, count): (usize, u64) = match find_tables(bytes, collection_index) {
        Some(tables) => tables,
        None => return,
    };
    let mut i: u64 = 0;
    assert(bytes@ =~= hidden(before, at as int, 0));
    while i < count
        invariant
            i <= count <= 0xffff,
            at + 8 + 16 * count <= before.len(),
            bytes@ == hidden(before, at as int, i as int),
        decreases count - i,
    {
        assert(bytes.len() == before.len());
        let record: usize = at + (8 + 16 * i) as usize;
        proof {
            lemma_hide_one(before, at as int, i as int);
            assert(bytes@[record as int] == before[at + 8 + 16 * i + 0]);
            assert(bytes@[record + 1] == before[at + 8 + 16 * i + 1]);
            assert(bytes@[record + 2] == before[at + 8 + 16 * i + 2]);
            assert(bytes@[record + 3] == before[at + 8 + 16 * i + 3]);
        }
        if !reads(read_long(bytes, record)) {
            bytes.set(record + 3, 0xff);
        }
        i += 1;
    }
}

/// Every table of a list is one that is read, or is hidden.
pub open spec fn tables_are_known(bytes: Seq<u8>, directory: int, count: int) -> bool {
    forall|i: int|
        0 <= i < count ==> is_read(#[trigger] tag_at(bytes, directory, i)) || bytes[directory + 8
            + 16 * i + 3] == 0xff
}

/// Hiding leaves no table that is neither read nor hidden, changes no tag of a table that is read, and
/// moves no table.
pub proof fn law_hidden_tables_are_known(bytes: Seq<u8>, directory: int, count: int)
    requires
        0 <= directory,
        directory + 8 + 16 * count <= bytes.len(),
    ensures
        tables_are_known(hidden(bytes, directory, count), directory, count),
        forall|i: int|
            0 <= i < count ==> {
                &&& is_read(#[trigger] tag_at(bytes, directory, i)) ==> tag_at(
                    hidden(bytes, directory, count),
                    directory,
                    i,
                ) == tag_at(bytes, directory, i)
                &&& table_start(hidden(bytes, directory, count), directory, i) == table_start(
                    bytes,
                    directory,
                    i,
                )
                &&& table_end(hidden(bytes, directory, count), directory, i) == table_end(
                    bytes,
                    directory,
                    i,
                )
            },
{
    let after = hidden(bytes, directory, count);
    assert forall|i: int, k: int| 0 <= i < count && 0 <= k < 16 implies #[trigger] after[directory
        + 8 + 16 * i + k] == (if k == 3 && !is_read(tag_at(bytes, directory, i)) {
        0xff
    } else {
        bytes[directory + 8 + 16 * i + k]
    }) by {
        let p = directory + 8 + 16 * i + k;
        assert((p - (directory + 8)) / 16 == i && (p - (directory + 8)) % 16 == k);
    }
    assert forall|i: int| 0 <= i < count implies {
        &&& is_read(tag_at(bytes, directory, i)) ==> #[trigger] tag_at(after, directory, i)
            == tag_at(bytes, directory, i)
        &&& !is_read(tag_at(bytes, directory, i)) ==> after[directory + 8 + 16 * i + 3] == 0xff
        &&& table_start(after, directory, i) == table_start(bytes, directory, i)
        &&& table_end(after, directory, i) == table_end(bytes, directory, i)
    } by {
        assert(after[directory + 8 + 16 * i + 0] == bytes[directory + 8 + 16 * i + 0]);
        assert(after[directory + 8 + 16 * i + 1] == bytes[directory + 8 + 16 * i + 1]);
        assert(after[directory + 8 + 16 * i + 2] == bytes[directory + 8 + 16 * i + 2]);
        assert(after[directory + 8 + 16 * i + 3] == if is_read(tag_at(bytes, directory, i)) {
            bytes[directory + 8 + 16 * i + 3]
        } else {
            0xff
        });
        assert(after[directory + 8 + 16 * i + 8] == bytes[directory + 8 + 16 * i + 8]);
        assert(after[directory + 8 + 16 * i + 9] == bytes[directory + 8 + 16 * i + 9]);
        assert(after[directory + 8 + 16 * i + 10] == bytes[directory + 8 + 16 * i + 10]);
        assert(after[directory + 8 + 16 * i + 11] == bytes[directory + 8 + 16 * i + 11]);
        assert(after[directory + 8 + 16 * i + 12] == bytes[directory + 8 + 16 * i + 12]);
        assert(after[directory + 8 + 16 * i + 13] == bytes[directory + 8 + 16 * i + 13]);
        assert(after[directory + 8 + 16 * i + 14] == bytes[directory + 8 + 16 * i + 14]);
        assert(after[directory + 8 + 16 * i + 15] == bytes[directory + 8 + 16 * i + 15]);
    }
    assert forall|i: int| 0 <= i < count implies is_read(#[trigger] tag_at(after, directory, i))
        || after[directory + 8 + 16 * i + 3] == 0xff by {
        if !is_read(tag_at(bytes, directory, i)) {
            assert(after[directory + 8 + 16 * i + 3] == 0xff);
        }
    }
    assert forall|i: int| 0 <= i < count implies {
        &&& is_read(#[trigger] tag_at(bytes, directory, i)) ==> tag_at(after, directory, i)
            == tag_at(bytes, directory, i)
        &&& table_start(after, directory, i) == table_start(bytes, directory, i)
        &&& table_end(after, directory, i) == table_end(bytes, directory, i)
    } by {
        assert(tag_at(after, directory, i) == tag_at(after, directory, i));
    }
}

/// One of the first `count` tables of a list has the tag.
pub open spec fn has_tag(bytes: Seq<u8>, directory: int, count: int, tag: u64) -> bool {
    exists|i: int| 0 <= i < count && #[trigger] tag_at(bytes, directory, i) == tag
}

/// One of the tables of a face has the tag.
pub open spec fn lists(bytes: Seq<u8>, collection_index: u32, tag: u64) -> bool {
    match face_tables(bytes, collection_index as int) {
        Some((directory, count)) => has_tag(bytes, directory, count, tag),
        None => false,
    }
}

fn holds_table(bytes: &Vec<u8>, collection_index: u32, tag: u64) -> (listed: bool)
    ensures
        listed == lists(bytes@, collection_index, tag),
{
    let (at, count): (usize, u64) = match find_tables(bytes, collection_index) {
        Some(tables) => tables,
        None => return false,
    };
    let mut i: u64 = 0;
    while i < count
        invariant
            i <= count <= 0xffff,
            at + 8 + 16 * count <= bytes@.len(),
            face_tables(bytes@, collection_index as int) == Some((at as int, count as int)),
            forall|k: int| 0 <= k < i ==> #[trigger] tag_at(bytes@, at as int, k) != tag,
        decreases count - i,
    {
        assert(at + 8 + 16 * count <= bytes.len());
        if read_long(bytes, at + (8 + 16 * i) as usize) == tag {
            assert(tag_at(bytes@, at as int, i as int) == tag);
            assert(has_tag(bytes@, at as int, count as int, tag));
            return true;
        }
        i += 1;
    }
    false
}

/// The face has outlines in the second compact format alone.
pub open spec fn is_second_compact(bytes: Seq<u8>, collection_index: u32) -> bool {
    &&& lists(bytes, collection_index, SECOND_COMPACT)
    &&& !lists(bytes, collection_index, COMPACT)
    &&& !lists(bytes, collection_index, GLYPHS)
}

/// Whether the face has outlines in the second compact format alone.
pub fn has_second_compact_only(bytes: &Vec<u8>, collection_index: u32) -> (only: bool)
    ensures
        only == is_second_compact(bytes@, collection_index),
{
    holds_table(bytes, collection_index, SECOND_COMPACT) && !holds_table(
        bytes,
        collection_index,
        COMPACT,
    ) && !holds_table(bytes, collection_index, GLYPHS)
}

/// The tables of a face are fewer than a number of 16 bits can tell, and each is one that is read, or
/// is hidden.
pub open spec fn face_is_known(bytes: Seq<u8>, collection_index: u32) -> bool {
    match face_tables(bytes, collection_index as int) {
        Some((directory, count)) => count < 0xffff && tables_are_known(bytes, directory, count),
        None => true,
    }
}

fn has_known_tables(bytes: &Vec<u8>, collection_index: u32) -> (known: bool)
    ensures
        known == face_is_known(bytes@, collection_index),
{
    let (at, count): (usize, u64) = match find_tables(bytes, collection_index) {
        Some(tables) => tables,
        None => return true,
    };
    if count == 0xffff {
        return false;
    }
    let mut i: u64 = 0;
    while i < count
        invariant
            i <= count < 0xffff,
            at + 8 + 16 * count <= bytes@.len(),
            face_tables(bytes@, collection_index as int) == Some((at as int, count as int)),
            tables_are_known(bytes@, at as int, i as int),
        decreases count - i,
    {
        assert(at + 8 + 16 * count <= bytes.len());
        let record: usize = at + (8 + 16 * i) as usize;
        if !reads(read_long(bytes, record)) && bytes[record + 3] != 0xff {
            assert(!is_read(tag_at(bytes@, at as int, i as int)));
            return false;
        }
        i += 1;
    }
    true
}

// ---- characters ---------------------------------------------------------------------------------

/// The list in a table from characters to glyphs ends where a number of 32 bits can tell. The table
/// stands at a position, and ends before another. Its first number says which kind of list it has.
pub open spec fn list_is_counted(bytes: Seq<u8>, at: int, end: int) -> bool {
    at + 2 <= end ==> {
        let kind = crate::numbers::short_at(bytes, at);
        &&& kind == 10 && at + 20 <= end ==> 20 + 2 * crate::numbers::long_at(bytes, at + 16)
            <= u32::MAX
        &&& (kind == 12 || kind == 13) && at + 16 <= end ==> 16 + 12 * crate::numbers::long_at(
            bytes,
            at + 12,
        ) <= u32::MAX
        &&& kind == 14 && at + 10 <= end ==> 10 + 11 * crate::numbers::long_at(bytes, at + 6)
            <= u32::MAX
    }
}

/// Where one of the tables from characters to glyphs stands that the table at `start` lists.
pub open spec fn list_place(bytes: Seq<u8>, start: int, i: int) -> int {
    start + crate::numbers::long_at(bytes, start + 4 + 8 * i + 4)
}

/// The lists of all tables from characters to glyphs of a face can be counted.
pub open spec fn characters_are_counted(bytes: Seq<u8>, collection_index: u32) -> bool {
    match face_table(bytes, collection_index as int, CHARACTERS) {
        Some((start, end)) => {
            let count = crate::numbers::short_at(bytes, start + 2);
            start + 4 <= end && start + 4 + 8 * count <= end ==> forall|i: int|
                0 <= i < count ==> list_is_counted(bytes, #[trigger] list_place(bytes, start, i), end)
        },
        None => true,
    }
}

fn is_counted_list(bytes: &Vec<u8>, at: u64, end: u64) -> (counted: bool)
    requires
        end <= bytes@.len(),
        at <= 0xffff_ffff_ffff,
    ensures
        counted == list_is_counted(bytes@, at as int, end as int),
{
    assert(end <= bytes.len());
    if at + 2 > end {
        return true;
    }
    let kind: u64 = read_short(bytes, at as usize);
    if kind == 10 && at + 20 <= end {
        20 + 2 * read_long(bytes, (at + 16) as usize) <= u32::MAX as u64
    } else if (kind == 12 || kind == 13) && at + 16 <= end {
        16 + 12 * read_long(bytes, (at + 12) as usize) <= u32::MAX as u64
    } else if kind == 14 && at + 10 <= end {
        10 + 11 * read_long(bytes, (at + 6) as usize) <= u32::MAX as u64
    } else {
        true
    }
}

fn has_counted_characters(bytes: &Vec<u8>, collection_index: u32) -> (counted: bool)
    requires
        bytes@.len() <= LONGEST_FILE,
    ensures
        counted == characters_are_counted(bytes@, collection_index),
{
    let (start, end): (usize, usize) = match find_table(bytes, collection_index, CHARACTERS) {
        Some(place) => place,
        None => return true,
    };
    if end - start < 4 {
        return true;
    }
    let count: u64 = read_short(bytes, start + 2);
    if ((end - start) as u64) < 4 + 8 * count {
        return true;
    }
    let mut i: u64 = 0;
    while i < count
        invariant
            i <= count <= 0xffff,
            start + 4 + 8 * count <= end <= bytes@.len() <= LONGEST_FILE,
            count == crate::numbers::short_at(bytes@, start + 2),
            face_table(bytes@, collection_index as int, CHARACTERS) == Some(
                (start as int, end as int),
            ),
            forall|k: int|
                0 <= k < i ==> list_is_counted(
                    bytes@,
                    #[trigger] list_place(bytes@, start as int, k),
                    end as int,
                ),
        decreases count - i,
    {
        assert(end <= bytes.len());
        let place: u64 = start as u64 + read_long(bytes, start + (4 + 8 * i + 4) as usize);
        assert(place == list_place(bytes@, start as int, i as int));
        if !is_counted_list(bytes, place, end as u64) {
            return false;
        }
        i += 1;
    }
    true
}

/// The depth of a line as `OS/2` has it can be taken with the other sign, if the face has it.
pub open spec fn depth_is_signed(bytes: Seq<u8>, collection_index: u32) -> bool {
    match face_table(bytes, collection_index as int, MEASURES) {
        Some((start, end)) => start + 78 <= end ==> crate::numbers::short_at(bytes, start + 76)
            != 0x8000,
        None => true,
    }
}

fn has_signed_depth(bytes: &Vec<u8>, collection_index: u32) -> (signed: bool)
    ensures
        signed == depth_is_signed(bytes@, collection_index),
{
    match find_table(bytes, collection_index, MEASURES) {
        Some((start, end)) => {
            assert(end <= bytes.len());
            end - start < 78 || read_short(bytes, start + 76) != 0x8000
        },
        None => true,
    }
}

// ---- files ----------------------------------------------------------------------------------------

/// The file can be read: what it counts with numbers of 32 bits ends where such a number can tell,
/// each of its tables is known or hidden, and the full name of the face is whole.
pub open spec fn is_readable_file(bytes: Seq<u8>, collection_index: u32) -> bool {
    &&& bytes.len() <= LONGEST_FILE
    &&& faces_are_countable(bytes)
    &&& face_is_known(bytes, collection_index)
    &&& characters_are_counted(bytes, collection_index)
    &&& depth_is_signed(bytes, collection_index)
    &&& crate::backend::font_outlines::outlines_are_counted(bytes, collection_index)
    &&& crate::backend::font_names::names_are_whole(bytes, collection_index)
}

/// Whether the file can be read.
pub fn can_read_file(bytes: &Vec<u8>, collection_index: u32) -> (readable: bool)
    ensures
        readable == is_readable_file(bytes@, collection_index),
{
    bytes.len() as u64 <= LONGEST_FILE && has_countable_faces(bytes) && has_known_tables(
        bytes,
        collection_index,
    ) && has_counted_characters(bytes, collection_index) && has_signed_depth(
        bytes,
        collection_index,
    ) && has_counted_outlines(bytes, collection_index) && has_whole_names(bytes, collection_index)
}

/// A table that is found has its tag, lies within the file, and is the last one of the list with its tag whose end can be
/// counted.
pub proof fn law_last_table_with_a_tag_is_found(
    bytes: Seq<u8>,
    directory: int,
    count: int,
    tag: u64,
    i: int,
)
    ensures
        last_table(bytes, directory, count, tag) matches Some(k) ==> 0 <= k < count && tag_at(
            bytes,
            directory,
            k,
        ) == tag && (k < i < count ==> tag_at(bytes, directory, i) != tag || table_end(
            bytes,
            directory,
            i,
        ) > usize::MAX),
        last_table(bytes, directory, count, tag) is None && 0 <= i < count ==> tag_at(
            bytes,
            directory,
            i,
        ) != tag || table_end(bytes, directory, i) > usize::MAX,
    decreases count,
{
    if count > 0 {
        law_last_table_with_a_tag_is_found(bytes, directory, count - 1, tag, i);
    }
}

/// A file of ordinary length whose tables are known or hidden is read, unless one of the tables that claim something claims too
/// much: without such tables it is read in any case.
pub proof fn law_plain_files_are_read(bytes: Seq<u8>, collection_index: u32)
    requires
        bytes.len() <= 0xff00_0000,
        crate::numbers::long_at(bytes, 0) != COLLECTION,
        face_is_known(bytes, collection_index),
        face_table(bytes, collection_index as int, CHARACTERS) is None,
        face_table(bytes, collection_index as int, MEASURES) is None,
        face_table(bytes, collection_index as int, COMPACT) is None,
        face_table(bytes, collection_index as int, NAMES) is None,
    ensures
        is_readable_file(bytes, collection_index),
{
}

/// A list of characters that ends beyond what 32 bits can tell makes a file unreadable.
pub proof fn law_uncounted_characters_are_not_read(
    bytes: Seq<u8>,
    collection_index: u32,
    start: int,
    end: int,
    i: int,
)
    requires
        face_table(bytes, collection_index as int, CHARACTERS) == Some((start, end)),
        start + 4 + 8 * crate::numbers::short_at(bytes, start + 2) <= end,
        0 <= i < crate::numbers::short_at(bytes, start + 2),
        list_place(bytes, start, i) + 16 <= end,
        crate::numbers::short_at(bytes, list_place(bytes, start, i)) == 12,
        16 + 12 * crate::numbers::long_at(bytes, list_place(bytes, start, i) + 12) > u32::MAX,
        0 <= start,
    ensures
        !is_readable_file(bytes, collection_index),
{
    let at = list_place(bytes, start, i);
    assert(!list_is_counted(bytes, at, end));
    let count = crate::numbers::short_at(bytes, start + 2);
    assert(start + 4 <= end && start + 4 + 8 * count <= end);
    assert(!(forall|k: int|
        0 <= k < count ==> list_is_counted(bytes, #[trigger] list_place(bytes, start, k), end)));
    assert(!characters_are_counted(bytes, collection_index));
}

} // verus!
