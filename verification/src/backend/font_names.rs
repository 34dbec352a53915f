//! The names in a font file: whether the full name of a face is whole.

use crate::backend::font_file::{find_table, NAMES};
use crate::numbers::read_short;
use vstd::prelude::*;

verus! {

/// The number with which a full name is marked.
pub const FULL_NAME: u64 = 4;

/// The names of a face: where their records stand, how many they are, where the texts begin, and
/// where they end at the latest.
pub struct NameList {
    pub records: int,
    pub count: int,
    pub texts: int,
    pub end: int,
}

/// The names in a table, if it can be read. The table may hold marks of languages before the records,
/// and the texts stand behind the records.
pub open spec fn table_names(bytes: Seq<u8>, start: int, end: int) -> Option<NameList> {
    let version = crate::numbers::short_at(bytes, start);
    let count = crate::numbers::short_at(bytes, start + 2);
    let languages = crate::numbers::short_at(bytes, start + 6);
    let records = if version == 0 {
        start + 6
    } else {
        start + 8 + 4 * languages
    };
    let behind = records + 12 * count;
    let texts = crate::geometry::larger(
        behind,
        start + crate::numbers::short_at(bytes, start + 4),
    );
    if end - start < 6 || version > 1 || (version == 1 && (end - start < 8 || 4 * languages
        > 0xffff)) || behind > end || texts > end {
        None
    } else {
        Some(NameList { records, count, texts, end })
    }
}

/// The names of a face, if it has any.
pub open spec fn face_names(bytes: Seq<u8>, collection_index: int) -> Option<NameList> {
    match crate::backend::font_file::face_table(bytes, collection_index, NAMES) {
        Some((start, end)) => table_names(bytes, start, end),
        None => None,
    }
}

impl NameList {
    /// Where the text of a name begins.
    pub open spec fn text_start(self, bytes: Seq<u8>, i: int) -> int {
        self.texts + crate::numbers::short_at(bytes, self.records + 12 * i + 10)
    }

    /// Where the text of a name ends.
    pub open spec fn text_end(self, bytes: Seq<u8>, i: int) -> int {
        self.text_start(bytes, i) + crate::numbers::short_at(bytes, self.records + 12 * i + 8)
    }

    /// The name can be read: its platform is known, and its text ends within the table.
    pub open spec fn is_readable(self, bytes: Seq<u8>, i: int) -> bool {
        crate::numbers::short_at(bytes, self.records + 12 * i) <= 4 && self.text_end(bytes, i)
            <= self.end
    }

    /// The name is a full name in Unicode: of the platform for it, or of one of the two encodings
    /// of Windows for it.
    pub open spec fn is_full_name(self, bytes: Seq<u8>, i: int) -> bool {
        let platform = crate::numbers::short_at(bytes, self.records + 12 * i);
        let encoding = crate::numbers::short_at(bytes, self.records + 12 * i + 2);
        crate::numbers::short_at(bytes, self.records + 12 * i + 6) == FULL_NAME && (platform == 0
            || platform == 3 && encoding <= 1)
    }

    /// The name is the one that the face is called by: the first full name, with no name before
    /// it that cannot be read.
    pub open spec fn is_title(self, bytes: Seq<u8>, i: int) -> bool {
        &&& 0 <= i < self.count
        &&& self.is_full_name(bytes, i)
        &&& forall|j: int| 0 <= j <= i ==> #[trigger] self.is_readable(bytes, j)
        &&& forall|j: int| 0 <= j < i ==> !#[trigger] self.is_full_name(bytes, j)
    }
}

/// The bytes from one position up to another are whole characters of 16 bits. A character beyond
/// them takes two halves: the first is from 0xd800 to 0xdbff, and the second is not below 0xdc00.
pub open spec fn is_whole(bytes: Seq<u8>, from: int, to: int) -> bool
    decreases to - from,
{
    if from >= to {
        true
    } else if to - from < 2 {
        false
    } else {
        let unit = crate::numbers::short_at(bytes, from);
        if unit < 0xd800 || 0xdfff < unit {
            is_whole(bytes, from + 2, to)
        } else {
            &&& unit < 0xdc00
            &&& to - from >= 4
            &&& crate::numbers::short_at(bytes, from + 2) >= 0xdc00
            &&& is_whole(bytes, from + 4, to)
        }
    }
}

/// The name that the face is called by is made of whole characters, if there is one.
pub open spec fn titles_are_whole(bytes: Seq<u8>, names: NameList) -> bool {
    forall|i: int| #[trigger]
        names.is_title(bytes, i) ==> is_whole(
            bytes,
            names.text_start(bytes, i),
            names.text_end(bytes, i),
        )
}

/// The full name of a face is made of whole characters, if the face has one.
pub open spec fn names_are_whole(bytes: Seq<u8>, collection_index: u32) -> bool {
    match face_names(bytes, collection_index as int) {
        Some(names) => titles_are_whole(bytes, names),
        None => true,
    }
}

/// Where the names of a table stand.
struct FoundNames {
    records: usize,
    count: u64,
    texts: usize,
    end: usize,
}

impl FoundNames {
    spec fn list(self) -> NameList {
        NameList {
            records: self.records as int,
            count: self.count as int,
            texts: self.texts as int,
            end: self.end as int,
        }
    }
}

fn read_table_names(bytes: &Vec<u8>, start: usize, end: usize) -> (found: Option<FoundNames>)
    requires
        start <= end <= bytes@.len(),
    ensures
        match found {
            Some(names) => table_names(bytes@, start as int, end as int) == Some(names.list())
                && names.records + 12 * names.count <= names.texts <= names.end <= bytes@.len()
                && names.count <= 0xffff,
            None => table_names(bytes@, start as int, end as int) is None,
        },
{
    assert(end <= bytes.len());
    let size: u64 = (end - start) as u64;
    if size < 6 {
        return None;
    }
    let version: u64 = read_short(bytes, start);
    let count: u64 = read_short(bytes, start + 2);
    let mut records: u64 = 6;
    if version > 1 {
        return None;
    }
    if version == 1 {
        if size < 8 {
            return None;
        }
        let languages: u64 = read_short(bytes, start + 6);
        if 4 * languages > 0xffff {
            return None;
        }
        records = 8 + 4 * languages;
    }
    let behind: u64 = records + 12 * count;
    let stored: u64 = read_short(bytes, start + 4);
    let texts: u64 = if behind < stored {
        stored
    } else {
        behind
    };
    if behind > size || texts > size {
        return None;
    }
    Some(
        FoundNames {
            records: start + records as usize,
            count,
            texts: start + texts as usize,
            end,
        },
    )
}

/// Finds the text that the face is called by, as where it begins and ends.
fn find_title(bytes: &Vec<u8>, names: &FoundNames) -> (found: Option<(usize, usize)>)
    requires
        names.records + 12 * names.count <= names.texts <= names.end <= bytes@.len(),
        names.count <= 0xffff,
    ensures
        match found {
            Some((from, to)) => from <= to <= bytes@.len() && exists|i: int| #[trigger]
                names.list().is_title(bytes@, i) && names.list().text_start(bytes@, i) == from
                    && names.list().text_end(bytes@, i) == to,
            None => forall|i: int| !#[trigger] names.list().is_title(bytes@, i),
        },
{
    let ghost list = names.list();
    let end: u64 = names.end as u64;
    assert(names.end <= bytes.len());
    let mut i: u64 = 0;
    while i < names.count
        invariant
            i <= names.count <= 0xffff,
            list == names.list(),
            names.records + 12 * names.count <= names.texts <= names.end <= bytes@.len(),
            end == names.end,
            forall|j: int| 0 <= j < i ==> #[trigger] list.is_readable(bytes@, j),
            forall|j: int| 0 <= j < i ==> !#[trigger] list.is_full_name(bytes@, j),
        decreases names.count - i,
    {
        assert(names.end <= bytes.len());
        let record: usize = names.records + (12 * i) as usize;
        let platform: u64 = read_short(bytes, record);
        let encoding: u64 = read_short(bytes, record + 2);
        let offset: u64 = read_short(bytes, record + 10);
        let length: u64 = read_short(bytes, record + 8);
        if platform > 4 || offset + length > end - names.texts as u64 {
            assert(!list.is_readable(bytes@, i as int));
            return None;
        }
        assert(list.is_readable(bytes@, i as int));
        if read_short(bytes, record + 6) == FULL_NAME && (platform == 0 || (platform == 3
            && encoding <= 1)) {
            assert(list.is_title(bytes@, i as int));
            let from: usize = names.texts + offset as usize;
            return Some((from, from + length as usize));
        }
        i += 1;
    }
    None
}

fn is_whole_text(bytes: &Vec<u8>, from: usize, to: usize) -> (whole: bool)
    requires
        from <= to <= bytes@.len(),
    ensures
        whole == is_whole(bytes@, from as int, to as int),
{
    assert(to <= bytes.len());
    let mut at: usize = from;
    while at < to
        invariant
            from <= at <= to <= bytes@.len(),
            to <= usize::MAX,
            is_whole(bytes@, from as int, to as int) == is_whole(bytes@, at as int, to as int),
        decreases to - at,
    {
        if to - at < 2 {
            return false;
        }
        let unit: u64 = read_short(bytes, at);
        if unit < 0xd800 || 0xdfff < unit {
            at += 2;
        } else {
            if unit >= 0xdc00 || to - at < 4 || read_short(bytes, at + 2) < 0xdc00 {
                return false;
            }
            at += 4;
        }
    }
    true
}

/// A face is called by one name at most.
proof fn lemma_one_title(list: NameList, bytes: Seq<u8>, a: int, b: int)
    requires
        list.is_title(bytes, a),
        list.is_title(bytes, b),
    ensures
        a == b,
{
    if a < b {
        assert(!list.is_full_name(bytes, a));
    }
    if b < a {
        assert(!list.is_full_name(bytes, b));
    }
}

/// Whether the name that a face is called by is made of whole characters, if there is one.
fn is_whole_title(bytes: &Vec<u8>, names: &FoundNames) -> (whole: bool)
    requires
        names.records + 12 * names.count <= names.texts <= names.end <= bytes@.len(),
        names.count <= 0xffff,
    ensures
        whole == titles_are_whole(bytes@, names.list()),
{
    match find_title(bytes, names) {
        Some((from, to)) => {
            let whole: bool = is_whole_text(bytes, from, to);
            proof {
                let list = names.list();
                let title = choose|i: int| #[trigger]
                    list.is_title(bytes@, i) && list.text_start(bytes@, i) == from && list.text_end(
                        bytes@,
                        i,
                    ) == to;
                assert forall|i: int| #[trigger] list.is_title(bytes@, i) implies i == title by {
                    lemma_one_title(list, bytes@, i, title);
                }
            }
            whole
        },
        None => true,
    }
}

/// A name is a full one by its number alone, which is four, and by who wrote it: whatever is for Unicode counts,
/// of Windows only the first two encodings do, and nobody else is asked.
pub proof fn law_full_names_are_in_unicode(names: NameList, bytes: Seq<u8>, i: int)
    ensures
        ({
            let platform = crate::numbers::short_at(bytes, names.records + 12 * i);
            let encoding = crate::numbers::short_at(bytes, names.records + 12 * i + 2);
            let number = crate::numbers::short_at(bytes, names.records + 12 * i + 6);
            &&& number != 4 ==> !names.is_full_name(bytes, i)
            &&& number == 4 && platform == 0 ==> names.is_full_name(bytes, i)
            &&& number == 4 && platform == 3 ==> (names.is_full_name(bytes, i) <==> encoding < 2)
            &&& platform != 0 && platform != 3 ==> !names.is_full_name(bytes, i)
        }),
{
}

/// A name can be read up to the very end of its table and no farther, and if its platform is one of the five.
pub proof fn law_names_end_within_their_table(names: NameList, bytes: Seq<u8>, i: int)
    ensures
        ({
            let platform = crate::numbers::short_at(bytes, names.records + 12 * i);
            let length = crate::numbers::short_at(bytes, names.records + 12 * i + 8);
            let offset = crate::numbers::short_at(bytes, names.records + 12 * i + 10);
            &&& names.text_end(bytes, i) - names.text_start(bytes, i) == length
            &&& names.text_start(bytes, i) - names.texts == offset
            &&& platform < 5 && names.texts + offset + length == names.end ==> names.is_readable(bytes, i)
            &&& names.texts + offset + length > names.end ==> !names.is_readable(bytes, i)
            &&& platform >= 5 ==> !names.is_readable(bytes, i)
        }),
{
}

/// A face is called by one name at most, and one that cannot be read hides all that come after it.
pub proof fn law_face_is_called_by_one_name(names: NameList, bytes: Seq<u8>, i: int, j: int)
    requires
        names.is_title(bytes, i),
    ensures
        names.is_title(bytes, j) ==> i == j,
        0 <= j < i ==> !names.is_full_name(bytes, j) && names.is_readable(bytes, j),
        names.is_full_name(bytes, i) && names.is_readable(bytes, i),
{
    if names.is_title(bytes, j) {
        if i < j {
            assert(!names.is_full_name(bytes, i));
        }
        if j < i {
            assert(!names.is_full_name(bytes, j));
        }
    }
}

/// A face without names, and one without a full name, has no name with a broken character.
pub proof fn law_nameless_faces_are_whole(bytes: Seq<u8>, collection_index: u32)
    ensures
        face_names(bytes, collection_index as int) is None ==> names_are_whole(bytes, collection_index),
        face_names(bytes, collection_index as int) matches Some(names) ==> (forall|i: int|
            0 <= i < names.count ==> !#[trigger] names.is_full_name(bytes, i)) ==> names_are_whole(
            bytes,
            collection_index,
        ),
        face_names(bytes, collection_index as int) matches Some(names) ==> forall|i: int| #[trigger]
            names.is_title(bytes, i) ==> (names_are_whole(bytes, collection_index) <==> is_whole(
                bytes,
                names.text_start(bytes, i),
                names.text_end(bytes, i),
            )),
{
    if let Some(names) = face_names(bytes, collection_index as int) {
        assert forall|i: int| #[trigger] names.is_title(bytes, i) implies (names_are_whole(
            bytes,
            collection_index,
        ) <==> is_whole(bytes, names.text_start(bytes, i), names.text_end(bytes, i))) by {
            assert forall|j: int| #[trigger] names.is_title(bytes, j) implies i == j by {
                law_face_is_called_by_one_name(names, bytes, i, j);
            }
        }
    }
}

/// Whether the full name of a face is made of whole characters, if the face has one.
pub fn has_whole_names(bytes: &Vec<u8>, collection_index: u32) -> (whole: bool)
    ensures
        whole == names_are_whole(bytes@, collection_index),
{
    match find_table(bytes, collection_index, NAMES) {
        Some((start, end)) => match read_table_names(bytes, start, end) {
            Some(names) => is_whole_title(bytes, &names),
            None => true,
        },
        None => true,
    }
}

/// A text of whole characters has an even number of bytes; a text without halves of characters is whole if it has; and a
/// second half without a first one, or a first one at the end, makes it broken.
pub proof fn law_whole_texts(bytes: Seq<u8>, from: int, to: int)
    requires
        0 <= from <= to <= bytes.len(),
    ensures
        is_whole(bytes, from, to) ==> (to - from) % 2 == 0,
        (to - from) % 2 == 0 && (forall|k: int|
            0 <= k && from + 2 * k + 2 <= to ==> {
                let unit = #[trigger] crate::numbers::short_at(bytes, from + 2 * k);
                unit < 0xd800 || 0xdfff < unit
            }) ==> is_whole(bytes, from, to),
        to - from >= 2 && 0xdc00 <= crate::numbers::short_at(bytes, from) <= 0xdfff ==> !is_whole(
            bytes,
            from,
            to,
        ),
        to - from == 2 && 0xd800 <= crate::numbers::short_at(bytes, from) <= 0xdfff ==> !is_whole(
            bytes,
            from,
            to,
        ),
    decreases to - from,
{
    if to - from >= 2 {
        let unit = crate::numbers::short_at(bytes, from);
        if unit < 0xd800 || 0xdfff < unit {
            law_whole_texts(bytes, from + 2, to);
            if (to - from) % 2 == 0 && (forall|k: int|
                0 <= k && from + 2 * k + 2 <= to ==> {
                    let unit = #[trigger] crate::numbers::short_at(bytes, from + 2 * k);
                    unit < 0xd800 || 0xdfff < unit
                }) {
                assert forall|k: int| 0 <= k && from + 2 + 2 * k + 2 <= to implies ({
                    let unit = #[trigger] crate::numbers::short_at(bytes, from + 2 + 2 * k);
                    unit < 0xd800 || 0xdfff < unit
                }) by {
                    assert(crate::numbers::short_at(bytes, from + 2 * (k + 1))
                        == crate::numbers::short_at(bytes, from + 2 + 2 * k));
                }
            }
        } else {
            if to - from >= 4 {
                law_whole_texts(bytes, from + 4, to);
            }
            assert(crate::numbers::short_at(bytes, from + 2 * 0) == unit);
        }
    }
}

} // verus!
